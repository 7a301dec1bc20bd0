//! What holds of every text, of every order of texts and of every JSON value.

use vstd::prelude::*;

use crate::json::{self, JsonV};
use crate::logs;
use crate::order;
use crate::paths;
use crate::seqs;
use crate::server;
use crate::summaries;
use crate::tails;
use crate::text;

verus! {

// ---------------------------------- pieces ----------------------------------

/// No piece of a text that is split at a character holds that character. With the pieces put
/// together again being the text, this leaves one way to split it.
pub proof fn law_pieces_hold_no_separator(s: Seq<char>, c: char, i: int, k: int)
    requires
        0 <= i < text::split_on(s, c).len(),
        0 <= k < text::split_on(s, c)[i].len(),
    ensures
        text::split_on(s, c)[i][k] != c,
    decreases s.len(),
{
    if s.len() > 0 {
        let p = text::split_on(s.drop_last(), c);
        text::lemma_split_nonempty(s.drop_last(), c);
        if s.last() == c {
            if i < p.len() {
                law_pieces_hold_no_separator(s.drop_last(), c, i, k);
            }
        } else if i < p.len() - 1 {
            law_pieces_hold_no_separator(s.drop_last(), c, i, k);
        } else if k < p.last().len() {
            law_pieces_hold_no_separator(s.drop_last(), c, i, k);
        }
    }
}

/// A text is split at a separator into what is before and what is behind it, and a text without the
/// separator is one piece.
pub proof fn law_split_at_separator(a: Seq<char>, c: char, b: Seq<char>)
    ensures
        text::split_on(a + seq![c] + b, c) == text::split_on(a, c) + text::split_on(b, c),
        (forall|k: int| 0 <= k < a.len() ==> a[k] != c) ==> text::split_on(a, c) == seq![a],
{
    text::lemma_split_concat(a, c, b);
    if forall|k: int| 0 <= k < a.len() ==> a[k] != c {
        lemma_one_piece(a, c);
    }
}

proof fn lemma_one_piece(s: Seq<char>, c: char)
    requires
        forall|k: int| 0 <= k < s.len() ==> s[k] != c,
    ensures
        text::split_on(s, c) == seq![s],
    decreases s.len(),
{
    if s.len() > 0 {
        let t = s.drop_last();
        assert forall|k: int| 0 <= k < t.len() implies t[k] != c by {
            assert(t[k] == s[k]);
        }
        lemma_one_piece(t, c);
        assert(t.push(s.last()) =~= s);
        assert(text::split_on(s, c) =~= seq![s]);
    } else {
        assert(s =~= Seq::empty());
    }
}

/// The lines of a text: its first line, without its line end, and the lines of the rest. A text
/// without a line feed is one line, and the empty text has none.
pub proof fn law_lines_of_a_text(line: Seq<char>, rest: Seq<char>)
    requires
        forall|k: int| 0 <= k < line.len() ==> #[trigger] line[k] != '\n',
    ensures
        text::lines_of(Seq::empty()) == Seq::<Seq<char>>::empty(),
        line.len() > 0 ==> text::lines_of(line) == seq![line],
        line.len() == 0 || line.last() != '\r' ==> text::lines_of(line + seq!['\n'] + rest)
            == seq![line] + text::lines_of(rest),
        text::lines_of(line + seq!['\r', '\n'] + rest) == seq![line] + text::lines_of(rest),
{
    let empty = Seq::<char>::empty();
    assert(text::split_on(empty, '\n') =~= seq![empty]);
    assert(text::lines_of(empty) =~= Seq::<Seq<char>>::empty());
    lemma_one_piece(line, '\n');
    if line.len() > 0 {
        assert(text::lines_of(line) =~= seq![line]);
    }
    let p = text::split_on(rest, '\n');
    text::lemma_split_nonempty(rest, '\n');
    text::lemma_split_concat(line, '\n', rest);
    let s = line + seq!['\n'] + rest;
    assert(text::split_on(s, '\n') =~= seq![line] + p);
    if line.len() == 0 || line.last() != '\r' {
        assert(text::lines_of(s) =~= seq![line] + text::lines_of(rest));
    }
    let cr = line.push('\r');
    lemma_one_piece(cr, '\n');
    text::lemma_split_concat(cr, '\n', rest);
    let t = line + seq!['\r', '\n'] + rest;
    assert(t =~= cr + seq!['\n'] + rest);
    assert(text::split_on(t, '\n') =~= seq![cr] + p);
    assert(cr.drop_last() =~= line);
    assert(text::lines_of(t) =~= seq![line] + text::lines_of(rest));
}

/// What is before the first separator holds no separator, begins the text, and is followed by the
/// separator or is all of the text.
pub proof fn law_before_first(s: Seq<char>, c: char)
    ensures
        text::before_first(s, c).len() <= s.len(),
        s.take(text::before_first(s, c).len() as int) == text::before_first(s, c),
        forall|k: int|
            0 <= k < text::before_first(s, c).len() ==> #[trigger] s[k] != c,
        text::before_first(s, c).len() < s.len() ==> s[text::before_first(s, c).len() as int] == c,
    decreases s.len(),
{
    let b = text::before_first(s, c);
    if s.len() > 0 && s[0] != c {
        let rest = s.drop_first();
        law_before_first(rest, c);
        let t = text::before_first(rest, c);
        assert forall|k: int| 0 <= k < b.len() implies #[trigger] s[k] != c by {
            if k > 0 {
                assert(rest[k - 1] == s[k]);
            }
        }
        assert forall|k: int| 0 <= k < b.len() implies s[k] == b[k] by {
            if k > 0 {
                assert(rest.take(t.len() as int)[k - 1] == t[k - 1]);
                assert(rest[k - 1] == s[k]);
            }
        }
        assert(s.take(b.len() as int) =~= b);
        if b.len() < s.len() {
            assert(rest[t.len() as int] == s[b.len() as int]);
        }
    } else {
        assert(s.take(0) =~= b);
    }
}

/// A trimmed text is the text without the white space at its ends: it neither begins nor ends in
/// white space, and all that was cut off is white space.
pub proof fn law_trimmed(s: Seq<char>)
    ensures
        text::trimmed(s).len() > 0 ==> !text::is_space(text::trimmed(s)[0]) && !text::is_space(
            text::trimmed(s).last(),
        ),
        exists|a: int, b: int|
            {
                &&& 0 <= a <= b <= s.len()
                &&& text::trimmed(s) == #[trigger] s.subrange(a, b)
                &&& forall|k: int|
                    (0 <= k < a || b <= k < s.len()) ==> text::is_space(#[trigger] s[k])
            },
{
    let t = text::trimmed_start(s);
    lemma_trimmed_start(s);
    lemma_trimmed_end(t);
    let a = s.len() - t.len();
    let r = text::trimmed(s);
    let b = a + r.len();
    assert(t =~= s.skip(a));
    assert(r =~= s.subrange(a, b));
    assert forall|k: int| (0 <= k < a || b <= k < s.len()) implies text::is_space(
        #[trigger] s[k],
    ) by {
        if k >= b {
            assert(t[k - a] == s[k]);
        }
    }
    if r.len() > 0 {
        assert(r[0] == t[0]);
    }
}

proof fn lemma_trimmed_start(s: Seq<char>)
    ensures
        text::trimmed_start(s).len() <= s.len(),
        text::trimmed_start(s) == s.skip(s.len() - text::trimmed_start(s).len()),
        text::trimmed_start(s).len() > 0 ==> !text::is_space(text::trimmed_start(s)[0]),
        forall|k: int|
            0 <= k < s.len() - text::trimmed_start(s).len() ==> text::is_space(#[trigger] s[k]),
    decreases s.len(),
{
    let t = text::trimmed_start(s);
    if s.len() > 0 && text::is_space(s[0]) {
        let rest = s.drop_first();
        lemma_trimmed_start(rest);
        assert(rest.skip(rest.len() - t.len()) =~= s.skip(s.len() - t.len()));
        assert forall|k: int| 0 <= k < s.len() - t.len() implies text::is_space(
            #[trigger] s[k],
        ) by {
            if k > 0 {
                assert(rest[k - 1] == s[k]);
            }
        }
    } else {
        assert(s.skip(0) =~= s);
    }
}

proof fn lemma_trimmed_end(s: Seq<char>)
    ensures
        text::trimmed_end(s).len() <= s.len(),
        text::trimmed_end(s) == s.take(text::trimmed_end(s).len() as int),
        text::trimmed_end(s).len() > 0 ==> !text::is_space(text::trimmed_end(s).last()),
        forall|k: int|
            text::trimmed_end(s).len() <= k < s.len() ==> text::is_space(#[trigger] s[k]),
    decreases s.len(),
{
    let t = text::trimmed_end(s);
    if s.len() > 0 && text::is_space(s.last()) {
        let rest = s.drop_last();
        lemma_trimmed_end(rest);
        assert(rest.take(t.len() as int) =~= s.take(t.len() as int));
        assert forall|k: int| t.len() <= k < s.len() implies text::is_space(#[trigger] s[k]) by {
            if k < rest.len() {
                assert(rest[k] == s[k]);
            }
        }
    } else {
        assert(s.take(s.len() as int) =~= s);
    }
}

/// The decimal digits of a number: appending a digit to those of `n` gives those of `10 * n + d`,
/// and a negative number has a sign before the digits.
pub proof fn law_decimal_digits(n: nat, d: nat)
    requires
        d < 10,
    ensures
        text::nat_text(d) == seq![(48 + d) as char],
        n > 0 ==> text::nat_text(10 * n + d) == text::nat_text(n).push((48 + d) as char),
        text::int_text(n as int) == text::nat_text(n),
        n > 0 ==> text::int_text(-(n as int)) == seq!['-'] + text::nat_text(n),
{
    let m = 10 * n + d;
    assert(m / 10 == n && m % 10 == d);
}

// ---------------------------------- dictionary order ----------------------------------

/// One text is at most another in dictionary order exactly where it begins the other, or has the
/// smaller character where the two first differ.
pub proof fn law_dictionary_order(a: Seq<char>, b: Seq<char>, k: int)
    requires
        0 <= k <= a.len(),
        k <= b.len(),
        forall|j: int| 0 <= j < k ==> #[trigger] a[j] == b[j],
    ensures
        k == a.len() ==> order::text_le(a, b),
        k < a.len() && k == b.len() ==> !order::text_le(a, b),
        k < a.len() && k < b.len() && a[k] != b[k] ==> (order::text_le(a, b) <==> a[k] < b[k]),
    decreases k,
{
    if k > 0 {
        let x = a.drop_first();
        let y = b.drop_first();
        assert(a[0] == b[0]);
        assert forall|j: int| 0 <= j < k - 1 implies #[trigger] x[j] == y[j] by {
            assert(a[j + 1] == b[j + 1]);
        }
        law_dictionary_order(x, y, k - 1);
    }
}

/// Sorting by key lists every position once, by key, and positions with one key in their order.
pub proof fn law_stable_order(keys: Seq<i64>, i: int, j: int, k: int)
    requires
        keys.len() <= usize::MAX,
        0 <= i < j < keys.len(),
        0 <= k < keys.len(),
    ensures
        ({
            let p = order::stable_order(keys);
            &&& p.len() == keys.len()
            &&& 0 <= p[i] < keys.len()
            &&& 0 <= p[j] < keys.len()
            &&& keys[p[i] as int] < keys[p[j] as int] || (keys[p[i] as int] == keys[p[j] as int]
                && p[i] < p[j])
            &&& p.contains(k as usize)
        }),
{
    order::lemma_stable_order_exists(keys);
    let p = order::stable_order(keys);
    assert(order::goes_before(keys, p[i] as int, p[j] as int));
}

// ---------------------------------- JSON ----------------------------------

/// A member is the value of the first entry with its name; there is none exactly where no entry has
/// the name. Only objects have members.
pub proof fn law_member_is_the_first_entry(
    o: Seq<(Seq<char>, JsonV)>,
    key: Seq<char>,
    n: int,
    v: JsonV,
)
    requires
        0 <= n <= o.len(),
        forall|j: int| 0 <= j < n ==> (#[trigger] o[j]).0 != key,
    ensures
        n < o.len() && o[n].0 == key ==> json::field(JsonV::Object(o), key) == Some(o[n].1),
        n == o.len() ==> json::field(JsonV::Object(o), key) is None,
        !(v is Object) ==> json::field(v, key) is None,
{
    if n == o.len() || o[n].0 == key {
        json::lemma_find_key_is(o, key, n);
    }
}

/// A list of texts or of integers in JSON has one value for each, in order.
pub proof fn law_lists_in_json(s: Seq<Seq<char>>, n: Seq<i64>, i: int)
    ensures
        json::strings(s) matches JsonV::Array(a) && a.len() == s.len() && (0 <= i < s.len()
            ==> a[i] == JsonV::Str(s[i])),
        json::integers(n) matches JsonV::Array(a) && a.len() == n.len() && (0 <= i < n.len()
            ==> a[i] == JsonV::Int(n[i] as int)),
{
}

/// The hexadecimal digits of a number: there are as many as were asked for, and one more digit of
/// `16 * n + d` is the digit `d` behind the digits of `n`.
pub proof fn law_hexadecimal_digits(n: nat, k: nat, d: nat)
    requires
        d < 16,
    ensures
        text::hex_text(n, k).len() == k,
        text::hex_text(16 * n + d, k + 1) == text::hex_text(n, k).push(
            seq![
                '0', '1', '2', '3', '4', '5', '6', '7', '8', '9', 'a', 'b', 'c', 'd', 'e', 'f',
            ][d as int],
        ),
{
    text::lemma_hex_len(n, k);
    assert((16 * n + d) / 16 == n);
    assert((16 * n + d) % 16 == d);
}

// ---------------------------------- paths ----------------------------------

/// Parts are joined exactly where all of them only go down: none begins with a slash, none begins
/// with a dot as its first piece, and none has `..` as a piece.
pub proof fn law_joined_where_all_go_down(base: Seq<char>, parts: Seq<Seq<char>>)
    ensures
        paths::joined_path(base, parts) is Some <==> forall|i: int|
            0 <= i < parts.len() ==> {
                let part = #[trigger] parts[i];
                &&& part.len() > 0 ==> part[0] != '/'
                &&& text::split_on(part, '/')[0] != seq!['.']
                &&& !text::split_on(part, '/').contains(seq!['.', '.'])
            },
    decreases parts.len(),
{
    if parts.len() > 0 {
        let t = parts.drop_last();
        law_joined_where_all_go_down(base, t);
        lemma_goes_down(parts.last());
        assert forall|i: int| 0 <= i < t.len() implies t[i] == #[trigger] parts[i] by {}
        assert(parts[parts.len() - 1] == parts.last());
        if paths::joined_path(base, t) is Some {
            assert forall|i: int| 0 <= i < t.len() implies {
                let part = #[trigger] parts[i];
                &&& part.len() > 0 ==> part[0] != '/'
                &&& text::split_on(part, '/')[0] != seq!['.']
                &&& !text::split_on(part, '/').contains(seq!['.', '.'])
            } by {
                assert(t[i] == parts[i]);
            }
        }
    }
}

proof fn lemma_goes_down(part: Seq<char>)
    ensures
        paths::goes_down(part) <==> {
            &&& part.len() > 0 ==> part[0] != '/'
            &&& text::split_on(part, '/')[0] != seq!['.']
            &&& !text::split_on(part, '/').contains(seq!['.', '.'])
        },
{
    reveal_strlit("/");
    reveal_strlit(".");
    reveal_strlit("..");
    assert("/"@ =~= seq!['/']);
    assert("."@ =~= seq!['.']);
    assert(".."@ =~= seq!['.', '.']);
    if part.len() > 0 {
        assert(part.take(1)[0] == part[0]);
        assert(part[0] == '/' ==> part.take(1) =~= seq!['/']);
    }
    let pieces = text::split_on(part, '/');
    if pieces.contains(seq!['.', '.']) {
        let i = choose|i: int| 0 <= i < pieces.len() && pieces[i] == seq!['.', '.'];
        assert(pieces[i] == ".."@);
    }
}

/// A part is joined behind a slash: the path begins with what it was before, ends in the part, and
/// between the two stands one slash at most, and one at least where the path was not empty.
pub proof fn law_joined_part(base: Seq<char>, part: Seq<char>)
    requires
        paths::goes_down(part),
    ensures
        base.len() == 0 ==> paths::joined_path(base, seq![part]) == Some(part),
        base.len() > 0 && base.last() == '/' ==> paths::joined_path(base, seq![part]) == Some(
            base + part,
        ),
        base.len() > 0 && base.last() != '/' ==> paths::joined_path(base, seq![part]) == Some(
            base + seq!['/'] + part,
        ),
{
    reveal_strlit("/");
    assert("/"@ =~= seq!['/']);
    assert(seq![part].drop_last() =~= Seq::empty());
    assert(paths::joined_path(base, Seq::empty()) == Some(base));
    assert(base.len() == 0 ==> base + part =~= part);
}

/// Joining some parts and then others is joining all of them.
pub proof fn law_joining_goes_on(base: Seq<char>, a: Seq<Seq<char>>, b: Seq<Seq<char>>)
    ensures
        paths::joined_path(base, a + b) == (match paths::joined_path(base, a) {
            Some(p) => paths::joined_path(p, b),
            None => None,
        }),
        paths::joined_path(base, Seq::empty()) == Some(base),
    decreases b.len(),
{
    if b.len() == 0 {
        assert(a + b =~= a);
        if paths::joined_path(base, a) is Some {
            assert(paths::joined_path(paths::joined_path(base, a)->0, b) == paths::joined_path(
                base,
                a,
            ));
        }
    } else {
        assert((a + b).drop_last() =~= a + b.drop_last());
        law_joining_goes_on(base, a, b.drop_last());
    }
}

/// A path lies in a directory exactly where the parts of the directory begin it.
pub proof fn law_within_is_a_prefix(root: Seq<Vec<u8>>, path: Seq<Vec<u8>>, i: int)
    ensures
        paths::is_within(root, path) && 0 <= i < root.len() ==> i < path.len() && root[i]@
            == path[i]@,
        0 <= i < root.len() && i < path.len() && root[i]@ != path[i]@ ==> !paths::is_within(
            root,
            path,
        ),
        path.len() < root.len() ==> !paths::is_within(root, path),
        paths::is_within(root, root + path),
{
    if paths::is_within(root, path) && 0 <= i < root.len() {
        assert(root[i]@ == path[i]@);
    }
}

/// The extension of a name is what stands behind its last dot, where something stands before that
/// dot; other names have none.
pub proof fn law_extension(stem: Seq<char>, ext: Seq<char>)
    requires
        forall|k: int| 0 <= k < ext.len() ==> #[trigger] ext[k] != '.',
    ensures
        stem.len() > 0 ==> paths::extension(stem + seq!['.'] + ext) == Some(ext),
        paths::extension(seq!['.'] + ext) is None,
        paths::extension(ext) is None,
{
    lemma_after_dot(stem, ext);
    lemma_after_dot(Seq::empty(), ext);
    lemma_no_dot(ext);
    let s = stem + seq!['.'] + ext;
    assert(s.skip(stem.len() + 1int) =~= ext);
    assert(Seq::<char>::empty() + seq!['.'] + ext =~= seq!['.'] + ext);
}

proof fn lemma_no_dot(ext: Seq<char>)
    requires
        forall|k: int| 0 <= k < ext.len() ==> #[trigger] ext[k] != '.',
    ensures
        paths::after_dot(ext) == 0,
    decreases ext.len(),
{
    if ext.len() > 0 {
        let t = ext.drop_last();
        assert forall|k: int| 0 <= k < t.len() implies #[trigger] t[k] != '.' by {
            assert(t[k] == ext[k]);
        }
        assert(ext[ext.len() - 1] != '.');
        lemma_no_dot(t);
    }
}

proof fn lemma_after_dot(stem: Seq<char>, ext: Seq<char>)
    requires
        forall|k: int| 0 <= k < ext.len() ==> #[trigger] ext[k] != '.',
    ensures
        paths::after_dot(stem + seq!['.'] + ext) == stem.len() + 1,
    decreases ext.len(),
{
    let s = stem + seq!['.'] + ext;
    if ext.len() > 0 {
        let t = ext.drop_last();
        assert forall|k: int| 0 <= k < t.len() implies #[trigger] t[k] != '.' by {
            assert(t[k] == ext[k]);
        }
        assert(ext[ext.len() - 1] != '.');
        lemma_after_dot(stem, t);
        assert(s.drop_last() =~= stem + seq!['.'] + t);
    }
}

/// A request for something below `assets/` is answered with that asset, whatever slashes it begins
/// with; any other with the page itself.
pub proof fn law_asset_of_a_path(path: Seq<char>)
    ensures
        server::asset_of(seq!['/'] + path) == server::asset_of(path),
        path.len() > 0 && path[0] != '/' ==> server::asset_of(path) == (if text::begins_with(
            path,
            "assets/"@,
        ) {
            path
        } else {
            "index.html"@
        }),
{
    assert((seq!['/'] + path).drop_first() =~= path);
}

// ---------------------------------- shards and consoles ----------------------------------

/// The shards of a tag are the names that end in `.log`; the one that is read is the last of them in
/// dictionary order.
pub proof fn law_last_shard_is_greatest(
    folder: Option<paths::FileMeta>,
    names: Vec<String>,
    i: int,
)
    requires
        folder matches Some(m) && !m.is_symlink && m.is_dir,
        names@.len() <= usize::MAX,
        0 <= i < names@.len(),
        text::finishes_with(names@[i]@, ".log"@),
    ensures
        summaries::shard_to_read(folder, Some(names)) matches Ok(s) && {
            &&& order::text_le(names@[i]@, s)
            &&& text::texts(names@).contains(s)
            &&& text::finishes_with(s, ".log"@)
        },
{
    let kept = names@.filter(summaries::is_shard());
    seqs::lemma_filter_holds(names@, summaries::is_shard());
    seqs::lemma_filter_keeps(names@, summaries::is_shard(), i);
    order::law_in_order_is_sorted(kept);
    let sorted = order::in_order(kept);
    let k = choose|k: int| 0 <= k < kept.len() && kept[k] == names@[i];
    assert(text::texts(kept)[k] == names@[i]@);
    assert(text::texts(kept).contains(names@[i]@));
    assert(sorted.contains(names@[i]@));
    let m = choose|m: int| 0 <= m < sorted.len() && sorted[m] == names@[i]@;
    let n = sorted.len() - 1;
    if m < n {
        assert(order::text_le(sorted[m], sorted[n]));
    } else {
        order::lemma_text_le_total(names@[i]@, names@[i]@);
    }
    assert(sorted.contains(sorted[n]));
    assert(text::texts(kept).contains(sorted[n]));
    let t = choose|t: int|
        0 <= t < text::texts(kept).len() && text::texts(kept)[t] == sorted[n];
    assert(names@.contains(kept[t]));
    let u = choose|u: int| 0 <= u < names@.len() && names@[u] == kept[t];
    assert(text::texts(names@)[u] == sorted[n]);
}

/// A folder that is missing, or is a link or no directory, is missing; one without a shard, or that
/// cannot be listed, cannot be read.
pub proof fn law_no_shard(folder: Option<paths::FileMeta>, names: Option<Vec<String>>)
    ensures
        !(folder matches Some(m) && !m.is_symlink && m.is_dir) ==> summaries::shard_to_read(
            folder,
            names,
        ) == Err::<Seq<char>, summaries::TagReadV>(summaries::TagReadV::MissingDir),
        folder matches Some(m) ==> !m.is_symlink && m.is_dir && (names is None || forall|i: int|
            0 <= i < names->0@.len() ==> !text::finishes_with(
                (#[trigger] names->0@[i])@,
                ".log"@,
            )) && (names is Some ==> names->0@.len() <= usize::MAX) ==> summaries::shard_to_read(
            folder,
            names,
        ) == Err::<Seq<char>, summaries::TagReadV>(summaries::TagReadV::ReadFail),
{
    match names {
        Some(n) => {
            let kept = n@.filter(summaries::is_shard());
            seqs::lemma_filter_holds(n@, summaries::is_shard());
            if n@.len() <= usize::MAX {
                order::law_in_order_is_sorted(kept);
            }
            if kept.len() > 0 && forall|i: int|
                0 <= i < n@.len() ==> !text::finishes_with((#[trigger] n@[i])@, ".log"@) {
                assert(n@.contains(kept[0]));
                let u = choose|u: int| 0 <= u < n@.len() && n@[u] == kept[0];
                assert(text::finishes_with(n@[u]@, ".log"@));
            }
        },
        None => {},
    }
}

/// The console logs of a folder are all its files in order, without the error log where there is
/// one.
pub proof fn law_console_logs(before: Seq<String>, error: String, after: Seq<String>)
    requires
        forall|i: int| 0 <= i < before.len() ==> (#[trigger] before[i])@ != "error.log"@,
        error@ == "error.log"@,
    ensures
        logs::console_logs(before) == before,
        logs::console_logs(before + seq![error] + after) == before + after,
{
    lemma_error_place(before, Seq::empty());
    lemma_error_place(before, seq![error] + after);
    assert(before + Seq::<String>::empty() =~= before);
    let all = before + (seq![error] + after);
    assert(all =~= before + seq![error] + after);
    assert(all.remove(before.len() as int) =~= before + after);
}

proof fn lemma_error_place(before: Seq<String>, rest: Seq<String>)
    requires
        forall|i: int| 0 <= i < before.len() ==> (#[trigger] before[i])@ != "error.log"@,
        rest.len() > 0 ==> rest[0]@ == "error.log"@,
    ensures
        logs::error_place(before + rest) == before.len(),
    decreases before.len(),
{
    let all = before + rest;
    if before.len() > 0 {
        let t = before.drop_first();
        assert(all[0]@ == before[0]@);
        assert(all.drop_first() =~= t + rest);
        assert forall|i: int| 0 <= i < t.len() implies (#[trigger] t[i])@ != "error.log"@ by {
            assert(t[i] == before[i + 1]);
        }
        lemma_error_place(t, rest);
    } else {
        assert(all =~= rest);
    }
}

/// The last line of bytes is decided by what stands behind a line feed where that has a line that is
/// not empty; bytes without a line feed are one line.
pub proof fn law_last_line_bytes(bytes: Seq<u8>, line: Seq<u8>)
    requires
        forall|k: int| 0 <= k < line.len() ==> #[trigger] line[k] != tails::LF,
    ensures
        line.len() > 0 ==> tails::last_line_bytes(line, false) == Some(line),
        line.len() > 0 ==> tails::last_line_bytes(bytes + seq![tails::LF] + line, false) == Some(
            line,
        ),
        tails::last_line_bytes(Seq::empty(), false) is None,
{
    tails::lemma_no_feed_is_zero(line);
    tails::lemma_no_feed_is_zero(Seq::empty());
    assert(line.skip(0) =~= line);
    assert(Seq::<u8>::empty().skip(0) =~= Seq::empty());
    if line.len() > 0 {
        let all = bytes + seq![tails::LF] + line;
        assert(all.skip(bytes.len() + 1int) =~= line);
        tails::lemma_behind_feed(all, bytes.len() as int, false);
    }
}

} // verus!
