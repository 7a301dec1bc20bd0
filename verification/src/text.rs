//! Text as sequences of characters: splitting, joining, trimming, decimal and hexadecimal digits.

use vstd::prelude::*;

verus! {

/// `String::push` appends one character.
pub assume_specification[ String::push ](s: &mut String, c: char)
    ensures
        final(s)@ == old(s)@.push(c),
;

/// The characters of `s`, in order.
pub fn to_chars(s: &str) -> (r: Vec<char>)
    ensures
        r@ == s@,
{
    let mut r: Vec<char> = Vec::new();
    for c in it: s.chars()
        invariant
            r@ == it.seq().take(it.index() as int),
            it.seq() == s@,
    {
        r.push(c);
    }
    r
}

/// The text made of the characters `chars[from..to]`.
pub fn text_of(chars: &Vec<char>, from: usize, to: usize) -> (r: String)
    requires
        from <= to <= chars.len(),
    ensures
        r@ == chars@.subrange(from as int, to as int),
{
    let mut r = String::new();
    let mut i: usize = from;
    while i < to
        invariant
            from <= i <= to <= chars.len(),
            r@ == chars@.subrange(from as int, i as int),
        decreases to - i,
    {
        r.push(chars[i]);
        i += 1;
    }
    r
}

/// `==` on `str` compares the characters of the two texts.
pub assume_specification[ <str as PartialEq>::eq ](a: &str, b: &str) -> (r: bool)
    ensures
        r == (a@ == b@),
;

/// Whether two texts have the same characters.
pub fn same_text(a: &str, b: &str) -> (r: bool)
    ensures
        r == (a@ == b@),
{
    *a == *b
}

/// The contents of a list of strings.
pub open spec fn texts(v: Seq<String>) -> Seq<Seq<char>> {
    v.map_values(|s: String| s@)
}

/// The contents of a list of string slices.
pub open spec fn slices(v: Seq<&str>) -> Seq<Seq<char>> {
    v.map_values(|s: &str| s@)
}

/// The content of an optional text.
pub open spec fn optional_text(s: Option<String>) -> Option<Seq<char>> {
    match s {
        Some(t) => Some(t@),
        None => None,
    }
}

/// `a` followed by `b`.
pub fn joined(a: &str, b: &str) -> (r: String)
    ensures
        r@ == a@ + b@,
{
    let mut r = a.to_owned();
    r.append(b);
    r
}

/// A copy of each string of `v`.
pub fn copy_texts(v: &Vec<String>) -> (r: Vec<String>)
    ensures
        texts(r@) == texts(v@),
{
    let mut r: Vec<String> = Vec::new();
    let mut i: usize = 0;
    while i < v.len()
        invariant
            i <= v.len(),
            texts(r@) == texts(v@).take(i as int),
        decreases v.len() - i,
    {
        let ghost before = r@;
        r.push(v[i].clone());
        proof {
            assert(texts(r@) =~= texts(before).push(v@[i as int]@));
            assert(texts(v@).take(i + 1) =~= texts(v@).take(i as int).push(v@[i as int]@));
        }
        i += 1;
    }
    proof {
        assert(texts(v@).take(v@.len() as int) =~= texts(v@));
    }
    r
}

/// Whether one of the strings of `v` is `key`.
pub fn has_text(v: &Vec<String>, key: &str) -> (r: bool)
    ensures
        r == texts(v@).contains(key@),
{
    let mut i: usize = 0;
    while i < v.len()
        invariant
            i <= v.len(),
            forall|j: int| 0 <= j < i ==> texts(v@)[j] != key@,
        decreases v.len() - i,
    {
        if same_text(v[i].as_str(), key) {
            proof {
                assert(texts(v@)[i as int] == key@);
            }
            return true;
        }
        i += 1;
    }
    false
}

// ---------------------------------- splitting ----------------------------------

/// The pieces of `s` between the occurrences of `c`; one more piece than there are occurrences.
pub open spec fn split_on(s: Seq<char>, c: char) -> Seq<Seq<char>>
    decreases s.len(),
{
    if s.len() == 0 {
        seq![Seq::<char>::empty()]
    } else {
        let p = split_on(s.drop_last(), c);
        if s.last() == c {
            p.push(Seq::<char>::empty())
        } else {
            p.drop_last().push(p.last().push(s.last()))
        }
    }
}

/// There is always at least one piece.
pub proof fn lemma_split_nonempty(s: Seq<char>, c: char)
    ensures
        split_on(s, c).len() >= 1,
    decreases s.len(),
{
    if s.len() > 0 {
        lemma_split_nonempty(s.drop_last(), c);
    }
}

/// Splitting a text at a separator splits the two sides of it.
pub proof fn lemma_split_concat(a: Seq<char>, c: char, b: Seq<char>)
    ensures
        split_on(a + seq![c] + b, c) == split_on(a, c) + split_on(b, c),
    decreases b.len(),
{
    let s = a + seq![c] + b;
    if b.len() == 0 {
        assert(s.drop_last() =~= a);
        assert(split_on(s, c) =~= split_on(a, c) + split_on(b, c));
    } else {
        assert(s.drop_last() =~= a + seq![c] + b.drop_last());
        lemma_split_concat(a, c, b.drop_last());
        lemma_split_nonempty(b.drop_last(), c);
        assert(split_on(s, c) =~= split_on(a, c) + split_on(b, c));
    }
}

/// The parts with a separator between them.
pub open spec fn rejoined(parts: Seq<Seq<char>>, c: char) -> Seq<char>
    decreases parts.len(),
{
    if parts.len() == 0 {
        Seq::empty()
    } else if parts.len() == 1 {
        parts[0]
    } else {
        rejoined(parts.drop_last(), c) + seq![c] + parts.last()
    }
}

proof fn lemma_rejoined_tail(parts: Seq<Seq<char>>, c: char, x: char)
    requires
        parts.len() > 0,
    ensures
        rejoined(parts.update(parts.len() - 1, parts.last().push(x)), c) == rejoined(
            parts,
            c,
        ).push(x),
{
    let u = parts.update(parts.len() - 1, parts.last().push(x));
    assert(u.drop_last() =~= parts.drop_last());
    assert(rejoined(u, c) =~= rejoined(parts, c).push(x));
}

/// Splitting loses nothing: the parts with the separator between them are the text again.
pub proof fn law_split_rejoins(s: Seq<char>, c: char)
    ensures
        rejoined(split_on(s, c), c) == s,
    decreases s.len(),
{
    if s.len() == 0 {
        assert(rejoined(split_on(s, c), c) =~= s);
    } else {
        let t = s.drop_last();
        law_split_rejoins(t, c);
        lemma_split_nonempty(t, c);
        let p = split_on(t, c);
        if s.last() == c {
            assert(p.push(Seq::<char>::empty()).drop_last() =~= p);
        } else {
            lemma_rejoined_tail(p, c, s.last());
            assert(split_on(s, c) =~= p.update(p.len() - 1, p.last().push(s.last())));
        }
        assert(t.push(s.last()) =~= s);
        assert(rejoined(split_on(s, c), c) =~= s);
    }
}

/// Splits `s` at every `c`.
pub fn split_text(s: &str, c: char) -> (r: Vec<String>)
    ensures
        texts(r@) == split_on(s@, c),
        r.len() >= 1,
{
    let chars = to_chars(s);
    let mut r: Vec<String> = Vec::new();
    let mut cur = String::new();
    let mut i: usize = 0;
    while i < chars.len()
        invariant
            i <= chars.len(),
            texts(r@).push(cur@) == split_on(chars@.take(i as int), c),
        decreases chars.len() - i,
    {
        let ghost done = texts(r@);
        let ghost last = cur@;
        proof {
            assert(chars@.take(i + 1).drop_last() =~= chars@.take(i as int));
            assert(done.push(last).drop_last() =~= done);
        }
        if chars[i] == c {
            let ghost before = r@;
            r.push(cur);
            cur = String::new();
            proof {
                assert(texts(r@) =~= done.push(last));
            }
        } else {
            cur.push(chars[i]);
        }
        i += 1;
    }
    let ghost done = texts(r@);
    let ghost last = cur@;
    r.push(cur);
    proof {
        assert(texts(r@) =~= done.push(last));
        assert(chars@.take(chars@.len() as int) =~= s@);
    }
    r
}

/// The text of `s` before the first `c`, all of it when there is none.
pub open spec fn before_first(s: Seq<char>, c: char) -> Seq<char>
    decreases s.len(),
{
    if s.len() == 0 || s[0] == c {
        Seq::empty()
    } else {
        seq![s[0]] + before_first(s.drop_first(), c)
    }
}

proof fn lemma_before_first(s: Seq<char>, c: char, n: int)
    requires
        0 <= n <= s.len(),
        forall|j: int| 0 <= j < n ==> s[j] != c,
        n < s.len() ==> s[n] == c,
    ensures
        before_first(s, c) == s.take(n),
    decreases n,
{
    if n > 0 {
        assert forall|j: int| 0 <= j < n - 1 implies s.drop_first()[j] != c by {
            assert(s.drop_first()[j] == s[j + 1]);
        }
        lemma_before_first(s.drop_first(), c, n - 1);
        assert(s.take(n) =~= seq![s[0]] + s.drop_first().take(n - 1));
    } else {
        assert(s.take(0) =~= Seq::<char>::empty());
    }
}

/// The part of `s` before the first `c`.
pub fn first_part(s: &str, c: char) -> (r: String)
    ensures
        r@ == before_first(s@, c),
{
    let chars = to_chars(s);
    let mut n: usize = 0;
    while n < chars.len() && chars[n] != c
        invariant
            n <= chars.len(),
            chars@ == s@,
            forall|j: int| 0 <= j < n ==> chars@[j] != c,
        decreases chars.len() - n,
    {
        n += 1;
    }
    proof {
        lemma_before_first(s@, c, n as int);
        assert(chars@.subrange(0, n as int) =~= s@.take(n as int));
    }
    text_of(&chars, 0, n)
}

/// A line without the carriage return that its line feed followed.
pub open spec fn without_cr(line: Seq<char>) -> Seq<char> {
    if line.len() > 0 && line.last() == '\r' {
        line.drop_last()
    } else {
        line
    }
}

/// The lines of `s`: each ends at a line feed, with or without a carriage return before it; the
/// last one may lack its line feed, and a text that ends in one has no empty line after it.
pub open spec fn lines_of(s: Seq<char>) -> Seq<Seq<char>> {
    let p = split_on(s, '\n');
    let n = p.len() - 1;
    let ended = Seq::new(n as nat, |i: int| without_cr(p[i]));
    if p.last().len() == 0 {
        ended
    } else {
        ended.push(p.last())
    }
}

/// The lines of `s`.
pub fn split_lines(s: &str) -> (r: Vec<String>)
    ensures
        texts(r@) == lines_of(s@),
{
    let pieces = split_text(s, '\n');
    let ghost p = split_on(s@, '\n');
    let n: usize = pieces.len() - 1;
    let mut r: Vec<String> = Vec::new();
    let mut i: usize = 0;
    while i < n
        invariant
            i <= n,
            n == pieces.len() - 1,
            p == texts(pieces@),
            texts(r@) == Seq::new(i as nat, |j: int| without_cr(p[j])),
        decreases n - i,
    {
        let ghost done = texts(r@);
        let chars = to_chars(pieces[i].as_str());
        let k: usize = chars.len();
        proof {
            assert(p[i as int] == chars@);
        }
        if k > 0 && chars[k - 1] == '\r' {
            let line = text_of(&chars, 0, k - 1);
            proof {
                assert(line@ =~= without_cr(p[i as int]));
            }
            r.push(line);
        } else {
            r.push(pieces[i].clone());
        }
        proof {
            assert(texts(r@) =~= done.push(without_cr(p[i as int])));
            assert(texts(r@) =~= Seq::new((i + 1) as nat, |j: int| without_cr(p[j])));
        }
        i += 1;
    }
    proof {
        assert(p.last() == pieces@[n as int]@);
    }
    if !pieces[n].as_str().is_empty() {
        let ghost done = texts(r@);
        r.push(pieces[n].clone());
        proof {
            assert(texts(r@) =~= done.push(p.last()));
        }
    }
    r
}

/// The last line of `lines` that is not empty, where there is one.
pub open spec fn last_nonempty(lines: Seq<Seq<char>>) -> Option<Seq<char>>
    decreases lines.len(),
{
    if lines.len() == 0 {
        None
    } else if lines.last().len() > 0 {
        Some(lines.last())
    } else {
        last_nonempty(lines.drop_last())
    }
}

// ---------------------------------- affixes ----------------------------------

/// Whether `s` begins with `prefix`.
pub open spec fn begins_with(s: Seq<char>, prefix: Seq<char>) -> bool {
    prefix.len() <= s.len() && s.take(prefix.len() as int) == prefix
}

/// Whether `s` ends with `suffix`.
pub open spec fn finishes_with(s: Seq<char>, suffix: Seq<char>) -> bool {
    suffix.len() <= s.len() && s.skip(s.len() - suffix.len()) == suffix
}

/// Whether `s` begins with `prefix`.
pub fn has_prefix(s: &str, prefix: &str) -> (r: bool)
    ensures
        r == begins_with(s@, prefix@),
{
    let a = to_chars(s);
    let b = to_chars(prefix);
    if b.len() > a.len() {
        return false;
    }
    let mut i: usize = 0;
    while i < b.len()
        invariant
            i <= b.len() <= a.len(),
            a@ == s@,
            b@ == prefix@,
            forall|j: int| 0 <= j < i ==> a@[j] == b@[j],
        decreases b.len() - i,
    {
        if a[i] != b[i] {
            proof {
                assert(a@.take(b@.len() as int)[i as int] != b@[i as int]);
            }
            return false;
        }
        i += 1;
    }
    proof {
        assert(a@.take(b@.len() as int) =~= b@);
    }
    true
}

/// Whether `s` ends with `suffix`.
pub fn has_suffix(s: &str, suffix: &str) -> (r: bool)
    ensures
        r == finishes_with(s@, suffix@),
{
    let a = to_chars(s);
    let b = to_chars(suffix);
    if b.len() > a.len() {
        return false;
    }
    let start: usize = a.len() - b.len();
    let mut i: usize = 0;
    while i < b.len()
        invariant
            i <= b.len() <= a.len(),
            a@ == s@,
            b@ == suffix@,
            start == a.len() - b.len(),
            forall|j: int| 0 <= j < i ==> a@[start + j] == b@[j],
        decreases b.len() - i,
    {
        if a[start + i] != b[i] {
            proof {
                assert(a@.skip(start as int)[i as int] != b@[i as int]);
            }
            return false;
        }
        i += 1;
    }
    proof {
        assert(a@.skip(start as int) =~= b@);
    }
    true
}

/// `s` without the `c`s that it begins with.
pub open spec fn without_leading(s: Seq<char>, c: char) -> Seq<char>
    decreases s.len(),
{
    if s.len() > 0 && s[0] == c {
        without_leading(s.drop_first(), c)
    } else {
        s
    }
}

proof fn lemma_without_leading(s: Seq<char>, c: char, n: int)
    requires
        0 <= n <= s.len(),
        forall|j: int| 0 <= j < n ==> s[j] == c,
        n < s.len() ==> s[n] != c,
    ensures
        without_leading(s, c) == s.skip(n),
    decreases n,
{
    if n > 0 {
        assert forall|j: int| 0 <= j < n - 1 implies s.drop_first()[j] == c by {
            assert(s.drop_first()[j] == s[j + 1]);
        }
        lemma_without_leading(s.drop_first(), c, n - 1);
        assert(s.skip(n) =~= s.drop_first().skip(n - 1));
    } else {
        assert(s.skip(0) =~= s);
    }
}

/// Drops the `c`s that `s` begins with.
pub fn drop_leading(s: &str, c: char) -> (r: String)
    ensures
        r@ == without_leading(s@, c),
{
    let chars = to_chars(s);
    let mut n: usize = 0;
    while n < chars.len() && chars[n] == c
        invariant
            n <= chars.len(),
            chars@ == s@,
            forall|j: int| 0 <= j < n ==> chars@[j] == c,
        decreases chars.len() - n,
    {
        n += 1;
    }
    proof {
        lemma_without_leading(s@, c, n as int);
        assert(chars@.subrange(n as int, chars@.len() as int) =~= s@.skip(n as int));
    }
    text_of(&chars, n, chars.len())
}

// ---------------------------------- trimming ----------------------------------

/// The characters with the Unicode property White_Space.
pub open spec fn is_space(c: char) -> bool {
    let n = c as int;
    ||| 9 <= n <= 13
    ||| n == 0x20
    ||| n == 0x85
    ||| n == 0xa0
    ||| n == 0x1680
    ||| 0x2000 <= n <= 0x200a
    ||| n == 0x2028
    ||| n == 0x2029
    ||| n == 0x202f
    ||| n == 0x205f
    ||| n == 0x3000
}

/// Whether `c` is white space.
pub fn space(c: char) -> (r: bool)
    ensures
        r == is_space(c),
{
    let n: u32 = c as u32;
    (9 <= n && n <= 13) || n == 0x20 || n == 0x85 || n == 0xa0 || n == 0x1680 || (0x2000 <= n && n
        <= 0x200a) || n == 0x2028 || n == 0x2029 || n == 0x202f || n == 0x205f || n == 0x3000
}

/// `s` without the white space that it begins with.
pub open spec fn trimmed_start(s: Seq<char>) -> Seq<char>
    decreases s.len(),
{
    if s.len() > 0 && is_space(s[0]) {
        trimmed_start(s.drop_first())
    } else {
        s
    }
}

/// `s` without the white space that it ends with.
pub open spec fn trimmed_end(s: Seq<char>) -> Seq<char>
    decreases s.len(),
{
    if s.len() > 0 && is_space(s.last()) {
        trimmed_end(s.drop_last())
    } else {
        s
    }
}

/// `s` without the white space at either end.
pub open spec fn trimmed(s: Seq<char>) -> Seq<char> {
    trimmed_end(trimmed_start(s))
}

/// Drops the white space at both ends of `s`.
pub fn trim_text(s: &str) -> (r: String)
    ensures
        r@ == trimmed(s@),
{
    let chars = to_chars(s);
    let mut from: usize = 0;
    proof {
        assert(s@.skip(0) =~= s@);
    }
    while from < chars.len() && space(chars[from])
        invariant
            from <= chars.len(),
            chars@ == s@,
            trimmed_start(s@) == trimmed_start(s@.skip(from as int)),
        decreases chars.len() - from,
    {
        proof {
            assert(s@.skip(from as int).drop_first() =~= s@.skip(from + 1));
        }
        from += 1;
    }
    let mut to: usize = chars.len();
    proof {
        assert(trimmed_start(s@) == s@.skip(from as int));
        assert(s@.subrange(from as int, to as int) =~= s@.skip(from as int));
    }
    while to > from && space(chars[to - 1])
        invariant
            from <= to <= chars.len(),
            chars@ == s@,
            trimmed(s@) == trimmed_end(s@.subrange(from as int, to as int)),
        decreases to - from,
    {
        proof {
            assert(s@.subrange(from as int, to as int).drop_last() =~= s@.subrange(
                from as int,
                to - 1,
            ));
        }
        to -= 1;
    }
    text_of(&chars, from, to)
}

// ---------------------------------- numbers ----------------------------------

/// The character of a decimal digit.
pub open spec fn digit_char(d: int) -> char {
    (('0' as int) + d) as char
}

/// A natural number in decimal digits, without leading zeros.
pub open spec fn nat_text(n: nat) -> Seq<char>
    decreases n,
{
    if n < 10 {
        seq![digit_char(n as int)]
    } else {
        nat_text(n / 10).push(digit_char((n % 10) as int))
    }
}

/// An integer in decimal digits, with a minus sign where it is negative.
pub open spec fn int_text(i: int) -> Seq<char> {
    if i < 0 {
        seq!['-'] + nat_text((-i) as nat)
    } else {
        nat_text(i as nat)
    }
}

fn digit(d: u8) -> (c: char)
    requires
        d < 10,
    ensures
        c == digit_char(d as int),
{
    (48u8 + d) as char
}

fn push_nat(s: &mut String, n: u128)
    ensures
        final(s)@ == old(s)@ + nat_text(n as nat),
    decreases n,
{
    if n < 10 {
        s.push(digit(n as u8));
        proof {
            assert(s@ =~= old(s)@ + nat_text(n as nat));
        }
    } else {
        push_nat(s, n / 10);
        s.push(digit((n % 10) as u8));
        proof {
            assert(s@ =~= old(s)@ + nat_text(n as nat));
        }
    }
}

/// `n` in decimal digits.
pub fn unsigned_text(n: u128) -> (r: String)
    ensures
        r@ == nat_text(n as nat),
{
    let mut r = String::new();
    push_nat(&mut r, n);
    proof {
        assert(r@ =~= nat_text(n as nat));
    }
    r
}

/// `i` in decimal digits.
pub fn signed_text(i: i64) -> (r: String)
    ensures
        r@ == int_text(i as int),
{
    let mut r = String::new();
    if i < 0 {
        r.push('-');
        push_nat(&mut r, (-(i as i128)) as u128);
        proof {
            assert(r@ =~= int_text(i as int));
        }
    } else {
        push_nat(&mut r, i as u128);
        proof {
            assert(r@ =~= int_text(i as int));
        }
    }
    r
}

/// The lower-case character of a hexadecimal digit.
pub open spec fn hex_char(d: int) -> char {
    if d < 10 {
        digit_char(d)
    } else {
        (('a' as int) + (d - 10)) as char
    }
}

/// The last `k` hexadecimal digits of `n`, the most significant first.
pub open spec fn hex_text(n: nat, k: nat) -> Seq<char>
    decreases k,
{
    if k == 0 {
        Seq::empty()
    } else {
        hex_text(n / 16, (k - 1) as nat).push(hex_char((n % 16) as int))
    }
}

fn push_hex(s: &mut String, n: u32, k: u8)
    ensures
        final(s)@ == old(s)@ + hex_text(n as nat, k as nat),
    decreases k,
{
    if k > 0 {
        push_hex(s, n / 16, k - 1);
        let d: u8 = (n % 16) as u8;
        if d < 10 {
            s.push(digit(d));
        } else {
            s.push((97u8 + (d - 10)) as char);
        }
    }
    proof {
        assert(s@ =~= old(s)@ + hex_text(n as nat, k as nat));
    }
}

/// `n` as eight hexadecimal digits.
pub fn hex8(n: u32) -> (r: String)
    ensures
        r@ == hex_text(n as nat, 8),
{
    let mut r = String::new();
    push_hex(&mut r, n, 8);
    proof {
        assert(r@ =~= hex_text(n as nat, 8));
    }
    r
}

/// Hexadecimal text has as many digits as were asked for.
pub proof fn lemma_hex_len(n: nat, k: nat)
    ensures
        hex_text(n, k).len() == k,
    decreases k,
{
    if k > 0 {
        lemma_hex_len(n / 16, (k - 1) as nat);
    }
}

spec fn fits_hex(n: nat, k: nat) -> bool
    decreases k,
{
    if k == 0 {
        n == 0
    } else {
        fits_hex(n / 16, (k - 1) as nat)
    }
}

proof fn lemma_hex_injective(m: nat, n: nat, k: nat)
    requires
        fits_hex(m, k),
        fits_hex(n, k),
        hex_text(m, k) == hex_text(n, k),
    ensures
        m == n,
    decreases k,
{
    if k > 0 {
        let a = hex_text(m / 16, (k - 1) as nat);
        let b = hex_text(n / 16, (k - 1) as nat);
        assert(hex_text(m, k).last() == hex_char((m % 16) as int));
        assert(hex_text(n, k).last() == hex_char((n % 16) as int));
        assert(hex_text(m, k).drop_last() =~= a);
        assert(hex_text(n, k).drop_last() =~= b);
        lemma_hex_injective(m / 16, n / 16, (k - 1) as nat);
    }
}

/// Different 32-bit numbers have different hexadecimal texts.
pub proof fn lemma_hex8_injective(m: nat, n: nat)
    requires
        m <= u32::MAX,
        n <= u32::MAX,
    ensures
        m != n ==> hex_text(m, 8) != hex_text(n, 8),
{
    reveal_with_fuel(fits_hex, 9);
    if hex_text(m, 8) == hex_text(n, 8) {
        lemma_hex_injective(m, n, 8);
    }
}

/// Decimal text is made of digits, and has at least one.
pub proof fn lemma_nat_text_digits(n: nat)
    ensures
        nat_text(n).len() >= 1,
        forall|i: int| 0 <= i < nat_text(n).len() ==> '0' <= #[trigger] nat_text(n)[i] <= '9',
    decreases n,
{
    if n >= 10 {
        lemma_nat_text_digits(n / 10);
    }
}

/// Different numbers have different decimal texts.
pub proof fn lemma_nat_text_injective(m: nat, n: nat)
    requires
        nat_text(m) == nat_text(n),
    ensures
        m == n,
    decreases m,
{
    lemma_nat_text_digits(m / 10);
    lemma_nat_text_digits(n / 10);
    let a = nat_text(m);
    let b = nat_text(n);
    if m < 10 || n < 10 {
        assert(a.len() == 1 && b.len() == 1);
        assert(a[0] as int == ('0' as int) + m);
        assert(b[0] as int == ('0' as int) + n);
    } else {
        assert(a.drop_last() =~= nat_text(m / 10));
        assert(b.drop_last() =~= nat_text(n / 10));
        assert(a.last() as int == ('0' as int) + m % 10);
        assert(b.last() as int == ('0' as int) + n % 10);
        lemma_nat_text_injective(m / 10, n / 10);
    }
}

} // verus!
