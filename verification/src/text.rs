//! Strings as sequences of characters: building, searching and comparing them.
use vstd::prelude::*;

verus! {

/// `String::push` appends one character.
pub assume_specification[ String::push ](s: &mut String, ch: char)
    ensures
        final(s)@ == old(s)@.push(ch),
;

/// The text of an optional string.
pub open spec fn opt_text(s: Option<String>) -> Option<Seq<char>> {
    match s {
        Some(t) => Some(t@),
        None => None,
    }
}

/// The texts of a sequence of strings.
pub open spec fn texts(s: Seq<String>) -> Seq<Seq<char>> {
    s.map_values(|t: String| t@)
}

/// The decimal digits of a natural number, most significant first.
pub open spec fn nat_text(n: nat) -> Seq<char>
    decreases n,
{
    if n < 10 {
        seq![digit_char(n)]
    } else {
        nat_text(n / 10).push(digit_char(n % 10))
    }
}

/// The character of a decimal digit.
pub open spec fn digit_char(d: nat) -> char {
    (48 + d) as char
}

/// The decimal form of an integer, with a leading minus sign where it is negative.
pub open spec fn int_text(n: int) -> Seq<char> {
    if n < 0 {
        seq!['-'] + nat_text((-n) as nat)
    } else {
        nat_text(n as nat)
    }
}

/// Whether `needle` stands in `hay` at position `at`.
pub open spec fn occurs_at(hay: Seq<char>, needle: Seq<char>, at: int) -> bool {
    0 <= at && at + needle.len() <= hay.len() && hay.subrange(at, at + needle.len()) == needle
}

/// Whether `needle` is a substring of `hay`.
pub open spec fn has_substring(hay: Seq<char>, needle: Seq<char>) -> bool {
    exists|at: int| occurs_at(hay, needle, at)
}

/// The characters of a string.
pub fn chars_of(s: &str) -> (out: Vec<char>)
    ensures
        out@ == s@,
{
    let mut out: Vec<char> = Vec::new();
    for c in iter: s.chars()
        invariant
            iter.seq() == s@,
            out@ == s@.take(iter.index() as int),
    {
        out.push(c);
    }
    out
}

/// The string made of the given characters.
pub fn string_of(chars: &Vec<char>) -> (out: String)
    ensures
        out@ == chars@,
{
    let mut out: String = String::new();
    let mut i: usize = 0;
    while i < chars.len()
        invariant
            i <= chars.len(),
            out@ == chars@.take(i as int),
        decreases chars.len() - i,
    {
        out.push(chars[i]);
        i += 1;
    }
    assert(chars@.take(chars@.len() as int) =~= chars@);
    out
}

/// An owned copy of a string slice.
pub fn owned(s: &str) -> (out: String)
    ensures
        out@ == s@,
{
    let mut out: String = String::new();
    out.append(s);
    assert(out@ =~= s@);
    out
}

/// The concatenation of two strings.
pub fn joined(a: &str, b: &str) -> (out: String)
    ensures
        out@ == a@ + b@,
{
    let mut out: String = owned(a);
    out.append(b);
    out
}

/// Whether two strings hold the same characters.
pub fn same(a: &str, b: &str) -> (r: bool)
    ensures
        r == (a@ == b@),
{
    let x: Vec<char> = chars_of(a);
    let y: Vec<char> = chars_of(b);
    if x.len() != y.len() {
        return false;
    }
    let mut i: usize = 0;
    while i < x.len()
        invariant
            i <= x.len(),
            x.len() == y.len(),
            x@ == a@,
            y@ == b@,
            forall|k: int| 0 <= k < i ==> x@[k] == y@[k],
        decreases x.len() - i,
    {
        if x[i] != y[i] {
            assert(a@[i as int] != b@[i as int]);
            return false;
        }
        i += 1;
    }
    assert(x@ =~= y@);
    true
}

/// Whether `needle` stands in `hay` at position `at`.
fn matches_at(hay: &Vec<char>, needle: &Vec<char>, at: usize) -> (r: bool)
    requires
        at + needle.len() <= hay.len(),
    ensures
        r == occurs_at(hay@, needle@, at as int),
{
    let mut k: usize = 0;
    while k < needle.len()
        invariant
            k <= needle.len(),
            at + needle.len() <= hay.len(),
            forall|j: int| 0 <= j < k ==> hay@[at + j] == needle@[j],
        decreases needle.len() - k,
    {
        if hay[at + k] != needle[k] {
            assert(hay@.subrange(at as int, at + needle.len())[k as int] != needle@[k as int]);
            return false;
        }
        k += 1;
    }
    assert(hay@.subrange(at as int, at + needle.len()) =~= needle@);
    true
}

/// Whether `needle` is a substring of `hay`.
pub fn contains(hay: &str, needle: &str) -> (r: bool)
    ensures
        r == has_substring(hay@, needle@),
{
    let h: Vec<char> = chars_of(hay);
    let n: Vec<char> = chars_of(needle);
    if n.len() > h.len() {
        return false;
    }
    let last: usize = h.len() - n.len();
    let mut at: usize = 0;
    while at <= last
        invariant
            at <= last + 1,
            last + n.len() == h.len(),
            h@ == hay@,
            n@ == needle@,
            forall|k: int| 0 <= k < at ==> !occurs_at(h@, n@, k),
        decreases last + 1 - at,
    {
        if matches_at(&h, &n, at) {
            return true;
        }
        if at == last {
            assert forall|k: int| !occurs_at(hay@, needle@, k) by {}
            return false;
        }
        at += 1;
    }
    assert forall|k: int| !occurs_at(hay@, needle@, k) by {}
    false
}

/// Whether `s` begins with `prefix`.
pub open spec fn has_prefix(s: Seq<char>, prefix: Seq<char>) -> bool {
    occurs_at(s, prefix, 0)
}

/// Whether `s` begins with `prefix`.
pub fn starts_with(s: &str, prefix: &str) -> (r: bool)
    ensures
        r == has_prefix(s@, prefix@),
{
    let h: Vec<char> = chars_of(s);
    let n: Vec<char> = chars_of(prefix);
    if n.len() > h.len() {
        return false;
    }
    matches_at(&h, &n, 0)
}

/// The first `n` characters of a string, or all of it where it is shorter.
pub fn truncated(s: &str, n: usize) -> (out: String)
    ensures
        out@ == shortened(s@, n as nat),
{
    let chars: Vec<char> = chars_of(s);
    if chars.len() <= n {
        return string_of(&chars);
    }
    let mut kept: Vec<char> = chars;
    kept.truncate(n);
    assert(kept@ =~= s@.take(n as int));
    string_of(&kept)
}

/// The decimal form of a natural number.
pub fn format_u64(n: u64) -> (out: String)
    ensures
        out@ == nat_text(n as nat),
    decreases n,
{
    if n < 10 {
        let mut out: String = String::new();
        let d: u8 = n as u8;
        out.push((48u8 + d) as char);
        assert(out@ =~= nat_text(n as nat));
        out
    } else {
        let mut out: String = format_u64(n / 10);
        let d: u8 = (n % 10) as u8;
        out.push((48u8 + d) as char);
        out
    }
}

/// The decimal form of an integer.
pub fn format_i32(n: i32) -> (out: String)
    ensures
        out@ == int_text(n as int),
{
    if n < 0 {
        let mut out: String = String::new();
        out.push('-');
        let digits: String = format_u64((-(n as i64)) as u64);
        out.append(digits.as_str());
        assert(out@ =~= int_text(n as int));
        out
    } else {
        format_u64(n as u64)
    }
}

/// A copy of an optional string.
pub fn clone_opt(s: &Option<String>) -> (out: Option<String>)
    ensures
        out == *s,
{
    match s {
        Some(t) => Some(t.clone()),
        None => None,
    }
}

/// A copy of a list of strings.
pub fn clone_strings(v: &Vec<String>) -> (out: Vec<String>)
    ensures
        out@ == v@,
{
    let mut out: Vec<String> = Vec::new();
    let mut i: usize = 0;
    while i < v.len()
        invariant
            i <= v.len(),
            out@ == v@.take(i as int),
        decreases v.len() - i,
    {
        out.push(v[i].clone());
        i += 1;
    }
    assert(v@.take(v@.len() as int) =~= v@);
    out
}

/// A character with an ASCII capital made small.
pub open spec fn small(c: char) -> char {
    if 'A' <= c && c <= 'Z' {
        (c as int + 32) as char
    } else {
        c
    }
}

/// A text with its ASCII capitals made small.
pub open spec fn ascii_lower(s: Seq<char>) -> Seq<char> {
    s.map_values(|c: char| small(c))
}

/// A text with its ASCII capitals made small.
pub fn ascii_lowercase(s: &str) -> (out: String)
    ensures
        out@ == ascii_lower(s@),
{
    let chars: Vec<char> = chars_of(s);
    let mut out: String = String::new();
    let mut i: usize = 0;
    while i < chars.len()
        invariant
            i <= chars.len(),
            chars@ == s@,
            out@ == ascii_lower(s@.take(i as int)),
        decreases chars.len() - i,
    {
        let c: char = chars[i];
        if 'A' <= c && c <= 'Z' {
            let code: u8 = c as u8;
            out.push((code + 32) as char);
        } else {
            out.push(c);
        }
        i += 1;
        assert(out@ =~= ascii_lower(s@.take(i as int)));
    }
    assert(s@.take(s@.len() as int) =~= s@);
    out
}

/// What `str::to_lowercase` gives for a text.
pub uninterp spec fn lowercase(s: Seq<char>) -> Seq<char>;

/// `str::to_lowercase` makes a text small, after Unicode's rules.
#[verifier::external_body]
pub(crate) fn to_lowercase(s: &str) -> (out: String)
    ensures
        out@ == lowercase(s@),
{
    s.to_lowercase()
}

/// Whether a character counts as white space: Unicode's `White_Space` property.
pub open spec fn is_space(c: char) -> bool {
    let n = c as u32;
    ||| 0x9 <= n <= 0xd
    ||| n == 0x20
    ||| n == 0x85
    ||| n == 0xa0
    ||| n == 0x1680
    ||| 0x2000 <= n <= 0x200a
    ||| n == 0x2028
    ||| n == 0x2029
    ||| n == 0x202f
    ||| n == 0x205f
    ||| n == 0x3000
}

/// A text without the white space that it begins with.
pub open spec fn trimmed_start(s: Seq<char>) -> Seq<char>
    decreases s.len(),
{
    if s.len() > 0 && is_space(s[0]) {
        trimmed_start(s.skip(1))
    } else {
        s
    }
}

/// A text without the white space that it ends with.
pub open spec fn trimmed_end(s: Seq<char>) -> Seq<char>
    decreases s.len(),
{
    if s.len() > 0 && is_space(s.last()) {
        trimmed_end(s.drop_last())
    } else {
        s
    }
}

/// A text without the white space around it.
pub open spec fn trimmed(s: Seq<char>) -> Seq<char> {
    trimmed_end(trimmed_start(s))
}

fn space(c: char) -> (r: bool)
    ensures
        r == is_space(c),
{
    let n: u32 = c as u32;
    (0x9 <= n && n <= 0xd) || n == 0x20 || n == 0x85 || n == 0xa0 || n == 0x1680 || (0x2000 <= n
        && n <= 0x200a) || n == 0x2028 || n == 0x2029 || n == 0x202f || n == 0x205f || n == 0x3000
}

/// A text without the white space around it.
pub fn trim(s: &str) -> (out: String)
    ensures
        out@ == trimmed(s@),
{
    let chars: Vec<char> = chars_of(s);
    let mut from: usize = 0;
    assert(s@.skip(0) =~= s@);
    while from < chars.len() && space(chars[from])
        invariant
            from <= chars.len(),
            chars@ == s@,
            trimmed_start(s@) == trimmed_start(s@.skip(from as int)),
        decreases chars.len() - from,
    {
        assert(s@.skip(from as int).skip(1) =~= s@.skip(from + 1));
        from += 1;
    }
    let ghost t = s@.skip(from as int);
    assert(trimmed_start(s@) == t);
    let mut to: usize = chars.len();
    assert(t.take(to - from) =~= t);
    while to > from && space(chars[to - 1])
        invariant
            from <= to <= chars.len(),
            chars@ == s@,
            t == s@.skip(from as int),
            trimmed_end(t) == trimmed_end(t.take(to - from)),
        decreases to,
    {
        assert(t.take(to - from).last() == chars@[to - 1]);
        assert(t.take(to - from).drop_last() =~= t.take(to - 1 - from));
        to -= 1;
    }
    let mut kept: Vec<char> = Vec::new();
    let mut i: usize = from;
    while i < to
        invariant
            from <= i <= to <= chars.len(),
            chars@ == s@,
            t == s@.skip(from as int),
            kept@ == t.take(i - from),
        decreases to - i,
    {
        kept.push(chars[i]);
        i += 1;
        assert(kept@ =~= t.take(i - from));
    }
    assert(trimmed_end(t.take(to - from)) == t.take(to - from)) by {
        if to > from {
            assert(t.take(to - from).last() == chars@[to - 1]);
        }
    }
    string_of(&kept)
}

/// Where the first line feed of a text stands; the length of the text where there is none.
pub open spec fn line_end(s: Seq<char>) -> nat
    decreases s.len(),
{
    if s.len() == 0 || s[0] == '\n' {
        0
    } else {
        1 + line_end(s.skip(1))
    }
}

/// The first line of a text: a carriage return before the line feed does not belong to it.
pub open spec fn line_of(s: Seq<char>) -> Seq<char> {
    let n = line_end(s) as int;
    if 0 < n < s.len() && s[n - 1] == '\r' {
        s.take(n - 1)
    } else {
        s.take(n)
    }
}

/// The first line of a text.
pub fn first_line(s: &str) -> (out: String)
    ensures
        out@ == line_of(s@),
{
    let chars: Vec<char> = chars_of(s);
    let mut n: usize = 0;
    assert(s@.skip(0) =~= s@);
    while n < chars.len() && chars[n] != '\n'
        invariant
            n <= chars.len(),
            chars@ == s@,
            line_end(s@) == n + line_end(s@.skip(n as int)),
        decreases chars.len() - n,
    {
        assert(s@.skip(n as int).skip(1) =~= s@.skip(n + 1));
        n += 1;
    }
    assert(line_end(s@) == n);
    if 0 < n && n < chars.len() && chars[n - 1] == '\r' {
        n -= 1;
    }
    let out: String = truncated(s, n);
    assert(out@ =~= s@.take(n as int));
    out
}

/// A text shortened to at most `n` characters.
pub open spec fn shortened(s: Seq<char>, n: nat) -> Seq<char> {
    if s.len() <= n {
        s
    } else {
        s.take(n as int)
    }
}

/// What follows the first `n` characters of a text.
pub fn after(s: &str, n: usize) -> (out: String)
    requires
        n <= s@.len(),
    ensures
        out@ == s@.skip(n as int),
{
    let chars: Vec<char> = chars_of(s);
    let mut kept: Vec<char> = Vec::new();
    let mut i: usize = n;
    while i < chars.len()
        invariant
            n <= i <= chars.len(),
            chars@ == s@,
            kept@ == s@.subrange(n as int, i as int),
        decreases chars.len() - i,
    {
        kept.push(chars[i]);
        i += 1;
        assert(kept@ =~= s@.subrange(n as int, i as int));
    }
    assert(kept@ =~= s@.skip(n as int));
    string_of(&kept)
}

/// Whether `a` comes no later than `b`, character by character.
pub open spec fn text_le(a: Seq<char>, b: Seq<char>) -> bool
    decreases a.len(),
{
    if a.len() == 0 {
        true
    } else if b.len() == 0 {
        false
    } else if a[0] != b[0] {
        a[0] < b[0]
    } else {
        text_le(a.skip(1), b.skip(1))
    }
}

/// The order on texts, as a relation.
pub open spec fn text_order() -> spec_fn(Seq<char>, Seq<char>) -> bool {
    |a: Seq<char>, b: Seq<char>| text_le(a, b)
}

/// Texts in order.
pub open spec fn sorted(s: Seq<Seq<char>>) -> Seq<Seq<char>> {
    s.sort_by(text_order())
}

proof fn lemma_text_reflexive(a: Seq<char>)
    ensures
        text_le(a, a),
    decreases a.len(),
{
    if a.len() > 0 {
        lemma_text_reflexive(a.skip(1));
    }
}

proof fn lemma_text_antisymmetric(a: Seq<char>, b: Seq<char>)
    requires
        text_le(a, b),
        text_le(b, a),
    ensures
        a == b,
    decreases a.len(),
{
    if a.len() > 0 {
        lemma_text_antisymmetric(a.skip(1), b.skip(1));
        assert(a =~= seq![a[0]] + a.skip(1));
        assert(b =~= seq![b[0]] + b.skip(1));
    } else {
        assert(a =~= b);
    }
}

proof fn lemma_text_transitive(a: Seq<char>, b: Seq<char>, c: Seq<char>)
    requires
        text_le(a, b),
        text_le(b, c),
    ensures
        text_le(a, c),
    decreases a.len(),
{
    if a.len() > 0 && a[0] == b[0] && b[0] == c[0] {
        lemma_text_transitive(a.skip(1), b.skip(1), c.skip(1));
    }
}

proof fn lemma_text_total(a: Seq<char>, b: Seq<char>)
    ensures
        text_le(a, b) || text_le(b, a),
    decreases a.len(),
{
    if a.len() > 0 && b.len() > 0 && a[0] == b[0] {
        lemma_text_total(a.skip(1), b.skip(1));
    }
}

/// Any two texts can be put in order, and only equal ones tie.
pub proof fn lemma_text_order()
    ensures
        vstd::relations::total_ordering(text_order()),
{
    let r = text_order();
    assert forall|x: Seq<char>| #[trigger] r(x, x) by {
        lemma_text_reflexive(x);
    }
    assert forall|x: Seq<char>, y: Seq<char>| #[trigger] r(x, y) && #[trigger] r(y, x) implies x
        == y by {
        lemma_text_antisymmetric(x, y);
    }
    assert forall|x: Seq<char>, y: Seq<char>, z: Seq<char>| #[trigger]
        r(x, y) && #[trigger] r(y, z) implies r(x, z) by {
        lemma_text_transitive(x, y, z);
    }
    assert forall|x: Seq<char>, y: Seq<char>| #[trigger] r(x, y) || #[trigger] r(y, x) by {
        lemma_text_total(x, y);
    }
}

fn comes_first(a: &str, b: &str) -> (r: bool)
    ensures
        r == text_le(a@, b@),
{
    let x: Vec<char> = chars_of(a);
    let y: Vec<char> = chars_of(b);
    let mut i: usize = 0;
    assert(a@.skip(0) =~= a@);
    assert(b@.skip(0) =~= b@);
    while i < x.len() && i < y.len() && x[i] == y[i]
        invariant
            i <= x.len(),
            i <= y.len(),
            x@ == a@,
            y@ == b@,
            text_le(a@, b@) == text_le(a@.skip(i as int), b@.skip(i as int)),
        decreases x.len() - i,
    {
        assert(a@.skip(i as int).skip(1) =~= a@.skip(i + 1));
        assert(b@.skip(i as int).skip(1) =~= b@.skip(i + 1));
        i += 1;
    }
    if i == x.len() {
        true
    } else if i == y.len() {
        false
    } else {
        x[i] < y[i]
    }
}

fn insert_sorted(list: &mut Vec<String>, x: String)
    requires
        vstd::relations::sorted_by(texts(old(list)@), text_order()),
    ensures
        vstd::relations::sorted_by(texts(final(list)@), text_order()),
        texts(final(list)@).to_multiset() == texts(old(list)@).push(x@).to_multiset(),
{
    let ghost s = texts(list@);
    let ghost before = list@;
    let ghost v = x@;
    let mut at: usize = 0;
    while at < list.len() && comes_first(list[at].as_str(), x.as_str())
        invariant
            at <= list.len(),
            list@ == before,
            s == texts(before),
            v == x@,
            forall|i: int| 0 <= i < at ==> text_le(#[trigger] s[i], v),
        decreases list.len() - at,
    {
        at += 1;
    }
    proof {
        lemma_text_order();
        if at < s.len() {
            assert(s[at as int] == list@[at as int]@);
            lemma_text_total(s[at as int], v);
            assert(text_le(v, s[at as int]));
        }
    }
    list.insert(at, x);
    proof {
        let r = text_order();
        let t = texts(list@);
        assert(t =~= s.insert(at as int, v));
        assert forall|i: int, j: int| 0 <= i < j < t.len() implies #[trigger] r(t[i], t[j]) by {
            if j < at {
                assert(r(s[i], s[j]));
            } else if j == at {
                assert(text_le(s[i], v));
            } else if i < at {
                assert(r(s[i], s[j - 1]));
            } else if i == at {
                if j - 1 > at {
                    assert(r(s[at as int], s[j - 1]));
                    assert(r(v, s[at as int]));
                }
            } else {
                assert(r(s[i - 1], s[j - 1]));
            }
        }
        vstd::seq_lib::to_multiset_insert(s, at as int, v);
        vstd::seq_lib::to_multiset_build(s, v);
    }
}

/// Sorts texts.
pub fn sort(list: Vec<String>) -> (out: Vec<String>)
    ensures
        texts(out@) == sorted(texts(list@)),
{
    let ghost all = texts(list@);
    let mut left: Vec<String> = list;
    let mut out: Vec<String> = Vec::new();
    let ghost mut n: int = 0;
    assert(texts(out@) =~= all.take(0));
    assert(texts(left@) =~= all.skip(0));
    while left.len() > 0
        invariant
            0 <= n <= all.len(),
            texts(left@) == all.skip(n),
            vstd::relations::sorted_by(texts(out@), text_order()),
            texts(out@).to_multiset() == all.take(n).to_multiset(),
        decreases left.len(),
    {
        let ghost before = texts(out@);
        let ghost rest = texts(left@);
        assert(rest.len() == left@.len());
        assert(rest[0] == all[n]);
        let x: String = left.remove(0);
        assert(x@ == all[n]);
        assert(texts(left@) =~= all.skip(n + 1)) by {
            assert(texts(left@) =~= rest.skip(1));
        }
        insert_sorted(&mut out, x);
        proof {
            vstd::seq_lib::to_multiset_build(before, all[n]);
            vstd::seq_lib::to_multiset_build(all.take(n), all[n]);
            assert(all.take(n + 1) =~= all.take(n).push(all[n]));
            n = n + 1;
        }
    }
    proof {
        assert(texts(left@).len() == 0);
        assert(all.take(n) =~= all);
        lemma_text_order();
        all.lemma_sort_by_ensures(text_order());
        vstd::seq_lib::lemma_sorted_unique(texts(out@), sorted(all), text_order());
    }
    out
}

} // verus!
