//! What the texts hold, character by character.
use vstd::prelude::*;

use crate::id;
use crate::id::{LearningId, TaskId};
use crate::text;

verus! {

/// The number that decimal digits stand for.
pub open spec fn decimal(s: Seq<char>) -> int
    decreases s.len(),
{
    if s.len() == 0 {
        0
    } else {
        10 * decimal(s.drop_last()) + (s.last() as int - '0' as int)
    }
}

/// The text of a number is its decimal digits, without a zero in front of others.
pub proof fn law_numbers_are_decimal(n: nat)
    ensures
        decimal(text::nat_text(n)) == n,
        text::nat_text(n).len() > 0,
        forall|i: int|
            0 <= i < text::nat_text(n).len() ==> '0' <= #[trigger] text::nat_text(n)[i] && text::nat_text(n)[i]
                <= '9',
        text::nat_text(n).len() > 1 ==> text::nat_text(n)[0] != '0',
        text::int_text(n as int) == text::nat_text(n),
        n > 0 ==> text::int_text(-n) == seq!['-'] + text::nat_text(n),
    decreases n,
{
    let s = text::nat_text(n);
    if n < 10 {
        reveal_with_fuel(decimal, 2);
        assert(s.drop_last() =~= Seq::<char>::empty());
    } else {
        let t = text::nat_text(n / 10);
        law_numbers_are_decimal(n / 10);
        assert(s.drop_last() =~= t);
        assert(decimal(s) == 10 * decimal(t) + (s.last() as int - '0' as int));
        if t.len() == 1 {
            assert(t.drop_last() =~= Seq::<char>::empty());
            reveal_with_fuel(decimal, 2);
            assert(decimal(t) == t[0] as int - '0' as int);
        }
    }
}

/// In lower case, each ASCII capital is the small letter in its place, and all else stays.
pub proof fn law_lower_case(s: Seq<char>)
    ensures
        text::ascii_lower(s).len() == s.len(),
        forall|i: int|
            0 <= i < s.len() ==> (#[trigger] text::ascii_lower(s)[i]) as int == if 'A' <= s[i] && s[i]
                <= 'Z' {
                s[i] as int - 'A' as int + 'a' as int
            } else {
                s[i] as int
            },
        text::ascii_lower(text::ascii_lower(s)) == text::ascii_lower(s),
{
    assert(text::ascii_lower(text::ascii_lower(s)) =~= text::ascii_lower(s));
}

/// Whether a text is another without white space at both ends.
pub open spec fn core_of(t: Seq<char>, s: Seq<char>, from: int, to: int) -> bool {
    &&& 0 <= from <= to <= s.len()
    &&& t == s.subrange(from, to)
    &&& forall|i: int| 0 <= i < from || to <= i < s.len() ==> text::is_space(#[trigger] s[i])
    &&& t.len() > 0 ==> !text::is_space(t[0]) && !text::is_space(t.last())
}

/// Whether a text is another without the white space around it.
pub open spec fn stripped(t: Seq<char>, s: Seq<char>) -> bool {
    exists|from: int, to: int| #[trigger] core_of(t, s, from, to)
}

/// Whether a text holds nothing but white space.
pub open spec fn blank(s: Seq<char>) -> bool {
    forall|i: int| 0 <= i < s.len() ==> text::is_space(#[trigger] s[i])
}

/// Trimming takes the white space off both ends of a text and nothing else; of a text that holds
/// nothing else, nothing is left.
pub proof fn law_trimming(s: Seq<char>)
    ensures
        stripped(text::trimmed(s), s),
        text::trimmed(s).len() == 0 <==> blank(s),
{
    lemma_trimmed_start(s);
    let from = choose|k: int|
        0 <= k <= s.len() && text::trimmed_start(s) == #[trigger] s.skip(k) && (forall|i: int|
            0 <= i < k ==> text::is_space(#[trigger] s[i]));
    let u = s.skip(from);
    lemma_trimmed_end(u);
    let m = choose|k: int|
        0 <= k <= u.len() && text::trimmed_end(u) == #[trigger] u.take(k) && (forall|i: int|
            k <= i < u.len() ==> text::is_space(#[trigger] u[i]));
    let to = from + m;
    let t = text::trimmed(s);
    assert(t =~= s.subrange(from, to));
    assert forall|i: int| 0 <= i < from || to <= i < s.len() implies text::is_space(
        #[trigger] s[i],
    ) by {
        if to <= i {
            assert(u[i - from] == s[i]);
        }
    }
    if t.len() > 0 {
        assert(t[0] == u[0]);
    }
    assert(core_of(t, s, from, to));
}

proof fn lemma_trimmed_start(s: Seq<char>)
    ensures
        exists|k: int|
            0 <= k <= s.len() && text::trimmed_start(s) == #[trigger] s.skip(k) && (forall|i: int|
                0 <= i < k ==> text::is_space(#[trigger] s[i])),
        text::trimmed_start(s).len() > 0 ==> !text::is_space(text::trimmed_start(s)[0]),
    decreases s.len(),
{
    if s.len() > 0 && text::is_space(s[0]) {
        let u = s.skip(1);
        lemma_trimmed_start(u);
        let k = choose|k: int|
            0 <= k <= u.len() && text::trimmed_start(u) == #[trigger] u.skip(k) && (forall|i: int|
                0 <= i < k ==> text::is_space(#[trigger] u[i]));
        assert(u.skip(k) =~= s.skip(k + 1));
        assert forall|i: int| 0 <= i < k + 1 implies text::is_space(#[trigger] s[i]) by {
            if i > 0 {
                assert(u[i - 1] == s[i]);
            }
        }
    } else {
        assert(s.skip(0) =~= s);
    }
}

proof fn lemma_trimmed_end(s: Seq<char>)
    ensures
        exists|k: int|
            0 <= k <= s.len() && text::trimmed_end(s) == #[trigger] s.take(k) && (forall|i: int|
                k <= i < s.len() ==> text::is_space(#[trigger] s[i])),
        text::trimmed_end(s).len() > 0 ==> !text::is_space(text::trimmed_end(s).last()),
    decreases s.len(),
{
    if s.len() > 0 && text::is_space(s.last()) {
        let u = s.drop_last();
        lemma_trimmed_end(u);
        let k = choose|k: int|
            0 <= k <= u.len() && text::trimmed_end(u) == #[trigger] u.take(k) && (forall|i: int|
                k <= i < u.len() ==> text::is_space(#[trigger] u[i]));
        assert(u.take(k) =~= s.take(k));
        assert forall|i: int| k <= i < s.len() implies text::is_space(#[trigger] s[i]) by {
            if i < u.len() {
                assert(u[i] == s[i]);
            }
        }
    } else {
        assert(s.take(s.len() as int) =~= s);
    }
}

/// Blanks, tabs and line ends are white space; ASCII letters, digits and signs are not.
pub proof fn law_white_space(c: char)
    ensures
        c == ' ' || c == '\t' || c == '\n' || c == '\r' ==> text::is_space(c),
        '!' <= c && c <= '~' ==> !text::is_space(c),
{
}

/// The first line of a text holds no line feed. It is the whole text where there is none; else a
/// line feed, or a carriage return and a line feed, stand behind it.
pub proof fn law_first_line(s: Seq<char>)
    ensures
        ({
            let l = text::line_of(s);
            &&& !l.contains('\n')
            &&& !s.contains('\n') ==> l == s
            &&& s.contains('\n') ==> {
                ||| s.len() > l.len() && s.take(l.len() as int + 1) == l.push('\n') && (l.len() > 0
                    ==> l.last() != '\r')
                ||| s.len() > l.len() + 1 && s.take(l.len() as int + 2) == l.push('\r').push('\n')
            }
        }),
{
    let l = text::line_of(s);
    let n = text::line_end(s) as int;
    lemma_line_end(s);
    if s.contains('\n') {
        if 0 < n && s[n - 1] == '\r' {
            assert(s.take(l.len() as int + 2) =~= l.push('\r').push('\n'));
        } else {
            assert(s.take(l.len() as int + 1) =~= l.push('\n'));
        }
    } else {
        assert(l =~= s);
    }
}

proof fn lemma_line_end(s: Seq<char>)
    ensures
        text::line_end(s) <= s.len(),
        forall|i: int| 0 <= i < text::line_end(s) ==> #[trigger] s[i] != '\n',
        text::line_end(s) < s.len() ==> s[text::line_end(s) as int] == '\n',
    decreases s.len(),
{
    if s.len() > 0 && s[0] != '\n' {
        let u = s.skip(1);
        lemma_line_end(u);
        assert forall|i: int| 0 <= i < text::line_end(s) implies #[trigger] s[i] != '\n' by {
            if i > 0 {
                assert(u[i - 1] == s[i]);
            }
        }
    }
}

/// A shortened text is the beginning of it, as long as is allowed.
pub proof fn law_shortening(s: Seq<char>, n: nat)
    ensures
        text::shortened(s, n).is_prefix_of(s),
        text::shortened(s, n).len() <= n,
        s.len() > n ==> text::shortened(s, n).len() == n,
        s.len() <= n ==> text::shortened(s, n) == s,
{
}

/// Whether a text begins with another.
pub open spec fn begins(s: Seq<char>, prefix: Seq<char>) -> bool {
    exists|rest: Seq<char>| s == #[trigger] (prefix + rest)
}

/// Whether a text holds another somewhere.
pub open spec fn mentions(s: Seq<char>, part: Seq<char>) -> bool {
    exists|a: Seq<char>, b: Seq<char>| s == #[trigger] (a + part + b)
}

pub proof fn lemma_mentions(s: Seq<char>, part: Seq<char>)
    ensures
        text::has_substring(s, part) <==> mentions(s, part),
{
    if text::has_substring(s, part) {
        let at = choose|at: int| text::occurs_at(s, part, at);
        let a = s.take(at);
        let b = s.skip(at + part.len());
        assert(s =~= a + part + b) by {
            assert(s.subrange(at, at + part.len()) == part);
            assert forall|i: int| at <= i < at + part.len() implies s[i] == part[i - at] by {
                assert(s.subrange(at, at + part.len())[i - at] == s[i]);
            }
        }
    }
    if mentions(s, part) {
        let (a, b) = choose|a: Seq<char>, b: Seq<char>| s == #[trigger] (a + part + b);
        assert(s.subrange(a.len() as int, a.len() as int + part.len()) =~= part);
        assert(text::occurs_at(s, part, a.len() as int));
    }
}

pub proof fn lemma_begins(s: Seq<char>, prefix: Seq<char>)
    ensures
        text::has_prefix(s, prefix) <==> begins(s, prefix),
        begins(s, prefix) ==> s == prefix + s.skip(prefix.len() as int),
{
    if text::has_prefix(s, prefix) {
        let rest = s.skip(prefix.len() as int);
        assert(s =~= prefix + rest) by {
            assert forall|i: int| 0 <= i < prefix.len() implies s[i] == prefix[i] by {
                assert(s.subrange(0, prefix.len() as int)[i] == s[i]);
            }
        }
    }
    if begins(s, prefix) {
        let rest = choose|rest: Seq<char>| s == #[trigger] (prefix + rest);
        assert(s.subrange(0, prefix.len() as int) =~= prefix);
        assert(s =~= prefix + s.skip(prefix.len() as int));
    }
}

/// Whether a text comes before another: at the first place where they differ it has the smaller
/// character, or it is the beginning of the other.
pub open spec fn before(a: Seq<char>, b: Seq<char>) -> bool {
    ||| a.len() < b.len() && a == b.take(a.len() as int)
    ||| exists|i: int| #[trigger] differ_first_at(a, b, i) && a[i] < b[i]
}

/// Whether two texts agree up to a place and differ there.
pub open spec fn differ_first_at(a: Seq<char>, b: Seq<char>, i: int) -> bool {
    0 <= i < a.len() && i < b.len() && a.take(i) == b.take(i) && a[i] != b[i]
}

/// Texts are put in the order of their characters, and none is lost or added.
pub proof fn law_texts_in_order(list: Seq<Seq<char>>, i: int, j: int)
    requires
        0 <= i < j < text::sorted(list).len(),
    ensures
        text::sorted(list)[i] == text::sorted(list)[j] || before(
            text::sorted(list)[i],
            text::sorted(list)[j],
        ),
        text::sorted(list).to_multiset() == list.to_multiset(),
{
    text::lemma_text_order();
    list.lemma_sort_by_ensures(text::text_order());
    let s = text::sorted(list);
    let r = text::text_order();
    assert(r(s[i], s[j]));
    lemma_text_le(s[i], s[j]);
}

proof fn lemma_text_le(a: Seq<char>, b: Seq<char>)
    requires
        text::text_le(a, b),
    ensures
        a == b || before(a, b),
    decreases a.len(),
{
    if a.len() == 0 {
        if b.len() > 0 {
            assert(a =~= b.take(0));
        } else {
            assert(a =~= b);
        }
    } else if a[0] != b[0] {
        assert(a.take(0) =~= b.take(0));
        assert(differ_first_at(a, b, 0));
    } else {
        let x = a.skip(1);
        let y = b.skip(1);
        lemma_text_le(x, y);
        assert(a =~= seq![a[0]] + x);
        assert(b =~= seq![b[0]] + y);
        if x != y {
            if x.len() < y.len() && x == y.take(x.len() as int) {
                assert(a =~= b.take(a.len() as int)) by {
                    assert forall|k: int| 0 <= k < a.len() implies a[k] == b[k] by {
                        if k > 0 {
                            assert(x[k - 1] == y.take(x.len() as int)[k - 1]);
                        }
                    }
                }
            } else {
                let i = choose|i: int| #[trigger] differ_first_at(x, y, i) && x[i] < y[i];
                assert(a.take(i + 1) =~= b.take(i + 1)) by {
                    assert forall|k: int| 0 <= k < i + 1 implies a[k] == b[k] by {
                        if k > 0 {
                            assert(x.take(i)[k - 1] == y.take(i)[k - 1]);
                        }
                    }
                }
                assert(differ_first_at(a, b, i + 1));
            }
        }
    }
}

/// The digits of an identifier are the ten decimal ones and the capital letters but I, L, O and U,
/// in this order; they are read back in either case, and no other character is.
pub proof fn law_digits_of_an_identifier(k: int, c: char)
    ensures
        "0123456789ABCDEFGHJKMNPQRSTVWXYZ"@.len() == 32,
        0 <= k < 32 ==> id::base32_char(k) == "0123456789ABCDEFGHJKMNPQRSTVWXYZ"@[k],
        0 <= k < 32 && (c == "0123456789ABCDEFGHJKMNPQRSTVWXYZ"@[k] || c
            == "0123456789abcdefghjkmnpqrstvwxyz"@[k]) ==> id::base32_value(c) == Some(k as nat),
        id::base32_value(c) is Some ==> "0123456789ABCDEFGHJKMNPQRSTVWXYZ"@.contains(c)
            || "0123456789abcdefghjkmnpqrstvwxyz"@.contains(c),
{
    reveal_strlit("0123456789ABCDEFGHJKMNPQRSTVWXYZ");
    reveal_strlit("0123456789abcdefghjkmnpqrstvwxyz");
    let upper = "0123456789ABCDEFGHJKMNPQRSTVWXYZ"@;
    let lower = "0123456789abcdefghjkmnpqrstvwxyz"@;
    match id::base32_value(c) {
        Some(v) => {
            assert(upper[v as int] == c || lower[v as int] == c);
        },
        None => {},
    }
}

/// Identifiers come in the order of their numbers when their texts are put in order.
pub proof fn law_identifiers_are_sortable(a: TaskId, b: TaskId, x: LearningId, y: LearningId)
    requires
        a.ulid < b.ulid,
        x.ulid < y.ulid,
    ensures
        before(a.text(), b.text()),
        before(x.text(), y.text()),
        a.text().len() == 31,
        x.text().len() == 30,
        a.text().take(5) == seq!['t', 'a', 's', 'k', '_'],
        x.text().take(4) == seq!['l', 'r', 'n', '_'],
{
    reveal_strlit("task_");
    reveal_strlit("lrn_");
    assert(pow(26) >= 0x1_0000_0000_0000_0000_0000_0000_0000_0000) by {
        reveal_with_fuel(pow, 27);
    }
    lemma_base32_order(a.ulid as nat, b.ulid as nat, 26);
    lemma_base32_order(x.ulid as nat, y.ulid as nat, 26);
    lemma_before_prefixed("task_"@, id::ulid_text(a.ulid), id::ulid_text(b.ulid));
    lemma_before_prefixed("lrn_"@, id::ulid_text(x.ulid), id::ulid_text(y.ulid));
    assert(a.text().take(5) =~= seq!['t', 'a', 's', 'k', '_']);
    assert(x.text().take(4) =~= seq!['l', 'r', 'n', '_']);
}

spec fn pow(n: nat) -> nat
    decreases n,
{
    if n == 0 {
        1
    } else {
        32 * pow((n - 1) as nat)
    }
}

proof fn lemma_before_prefixed(p: Seq<char>, a: Seq<char>, b: Seq<char>)
    requires
        exists|i: int| #[trigger] differ_first_at(a, b, i) && a[i] < b[i],
    ensures
        before(p + a, p + b),
{
    let i = choose|i: int| #[trigger] differ_first_at(a, b, i) && a[i] < b[i];
    let n = p.len() + i;
    assert((p + a).take(n) =~= p + a.take(i));
    assert((p + b).take(n) =~= p + b.take(i));
    assert(differ_first_at(p + a, p + b, n));
}

proof fn lemma_base32_order(v: nat, w: nat, n: nat)
    requires
        v < w < pow(n),
    ensures
        id::base32(v, n).len() == n,
        id::base32(w, n).len() == n,
        exists|i: int|
            #[trigger] differ_first_at(id::base32(v, n), id::base32(w, n), i) && id::base32(v, n)[i]
                < id::base32(w, n)[i],
    decreases n,
{
    let a = id::base32(v, n);
    let b = id::base32(w, n);
    let m = (n - 1) as nat;
    assert(n > 0);
    let x = id::base32(v / 32, m);
    let y = id::base32(w / 32, m);
    if v / 32 < w / 32 {
        assert(w / 32 < pow(m)) by (nonlinear_arith)
            requires
                w < 32 * pow(m),
        ;
        lemma_base32_order(v / 32, w / 32, m);
        let i = choose|i: int| #[trigger] differ_first_at(x, y, i) && x[i] < y[i];
        assert(a.take(i) =~= x.take(i));
        assert(b.take(i) =~= y.take(i));
        assert(differ_first_at(a, b, i));
    } else {
        assert(v / 32 == w / 32);
        lemma_base32_len(v / 32, m);
        assert(v % 32 < w % 32);
        assert(a.take(m as int) =~= x);
        assert(b.take(m as int) =~= y);
        assert(a[m as int] < b[m as int]);
        assert(differ_first_at(a, b, m as int));
    }
}

proof fn lemma_base32_len(v: nat, n: nat)
    ensures
        id::base32(v, n).len() == n,
    decreases n,
{
    if n > 0 {
        lemma_base32_len(v / 32, (n - 1) as nat);
    }
}

} // verus!
