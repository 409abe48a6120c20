//! Identifiers: 128-bit ULIDs, written as a prefix and 26 base-32 digits.
use vstd::prelude::*;

use crate::text;

verus! {

/// Identifies a task.
#[derive(Clone, Copy, PartialEq, Eq, Structural, PartialOrd, Ord, Hash, Debug)]
pub struct TaskId {
    pub ulid: u128,
}

/// Identifies a learning.
#[derive(Clone, Copy, PartialEq, Eq, Structural, PartialOrd, Ord, Hash, Debug)]
pub struct LearningId {
    pub ulid: u128,
}

/// The base-32 digit for a value below 32: the decimal digits, then the capital letters
/// without I, L, O and U.
pub open spec fn base32_char(d: int) -> char {
    if d < 10 {
        (48 + d) as char
    } else if d < 18 {
        (55 + d) as char
    } else if d < 20 {
        (56 + d) as char
    } else if d < 22 {
        (57 + d) as char
    } else if d < 27 {
        (58 + d) as char
    } else {
        (59 + d) as char
    }
}

/// The value of a digit, where the character is one. A small letter counts as the capital one.
pub open spec fn base32_value(c: char) -> Option<nat> {
    let v = if 97 <= c as int <= 122 {
        c as int - 32
    } else {
        c as int
    };
    if 48 <= v <= 57 {
        Some((v - 48) as nat)
    } else if 65 <= v <= 72 {
        Some((v - 55) as nat)
    } else if 74 <= v <= 75 {
        Some((v - 56) as nat)
    } else if 77 <= v <= 78 {
        Some((v - 57) as nat)
    } else if 80 <= v <= 84 {
        Some((v - 58) as nat)
    } else if 86 <= v <= 90 {
        Some((v - 59) as nat)
    } else {
        None
    }
}

/// The `n` low base-32 digits of `v`, most significant first.
pub open spec fn base32(v: nat, n: nat) -> Seq<char>
    decreases n,
{
    if n == 0 {
        Seq::empty()
    } else {
        base32(v / 32, (n - 1) as nat).push(base32_char((v % 32) as int))
    }
}

/// The number that a sequence of base-32 digits stands for.
pub open spec fn number(s: Seq<char>) -> nat
    decreases s.len(),
{
    if s.len() == 0 {
        0
    } else {
        number(s.drop_last()) * 32 + (match base32_value(s.last()) {
            Some(d) => d,
            None => 0,
        })
    }
}

/// Whether every character is a base-32 digit.
pub open spec fn all_digits(s: Seq<char>) -> bool {
    forall|i: int| 0 <= i < s.len() ==> base32_value(#[trigger] s[i]) is Some
}

/// The text of a ULID: its 26 base-32 digits.
pub open spec fn ulid_text(v: u128) -> Seq<char> {
    base32(v as nat, 26)
}

/// The ULID that a text stands for: 26 base-32 digits, of which the low 128 bits count.
pub open spec fn ulid_value(s: Seq<char>) -> Option<u128> {
    if s.len() == 26 && all_digits(s) {
        Some((number(s) % 0x1_0000_0000_0000_0000_0000_0000_0000_0000nat) as u128)
    } else {
        None
    }
}

/// The ULID in a text that begins with a prefix.
pub open spec fn prefixed_value(prefix: Seq<char>, s: Seq<char>) -> Option<u128> {
    if text::has_prefix(s, prefix) {
        ulid_value(s.skip(prefix.len() as int))
    } else {
        None
    }
}

spec fn pow32(n: nat) -> nat
    decreases n,
{
    if n == 0 {
        1
    } else {
        32 * pow32((n - 1) as nat)
    }
}

/// Reading back the digits of a number gives the number.
proof fn lemma_number_base32(v: nat, n: nat)
    requires
        v < pow32(n),
    ensures
        number(base32(v, n)) == v,
        all_digits(base32(v, n)),
        base32(v, n).len() == n,
    decreases n,
{
    if n > 0 {
        let m = (n - 1) as nat;
        assert(v / 32 < pow32(m)) by (nonlinear_arith)
            requires
                v < 32 * pow32(m),
        ;
        lemma_number_base32(v / 32, m);
        assert(base32_value(base32_char((v % 32) as int)) == Some(v % 32));
        let s = base32(v, n);
        assert(s.drop_last() =~= base32(v / 32, m));
        assert forall|i: int| 0 <= i < s.len() implies base32_value(#[trigger] s[i]) is Some by {
            if i < s.len() - 1 {
                assert(s[i] == base32(v / 32, m)[i]);
            }
        }
    }
}

proof fn lemma_pow32()
    ensures
        pow32(26) == 0x4_0000_0000_0000_0000_0000_0000_0000_0000nat,
{
    assert(pow32(5) == 0x200_0000) by {
        reveal_with_fuel(pow32, 6);
    }
    assert(pow32(10) == 0x4_0000_0000_0000) by {
        reveal_with_fuel(pow32, 6);
    }
    assert(pow32(15) == 0x800_0000_0000_0000_0000nat) by {
        reveal_with_fuel(pow32, 6);
    }
    assert(pow32(20) == 0x10_0000_0000_0000_0000_0000_0000nat) by {
        reveal_with_fuel(pow32, 6);
    }
    assert(pow32(25) == 0x2000_0000_0000_0000_0000_0000_0000_0000nat) by {
        reveal_with_fuel(pow32, 6);
    }
    assert(pow32(26) == 32 * pow32(25));
}

/// The text of a ULID behind a prefix is read back as that ULID.
proof fn lemma_prefixed(prefix: Seq<char>, v: u128)
    ensures
        prefixed_value(prefix, prefix + ulid_text(v)) == Some(v),
{
    let s = prefix + ulid_text(v);
    lemma_pow32();
    lemma_number_base32(v as nat, 26);
    assert(s.skip(prefix.len() as int) =~= ulid_text(v));
    assert(s.subrange(0, prefix.len() as int) =~= prefix);
}

/// `ulid::Ulid::new` makes a value from the clock and from chance. Nothing is claimed of it.
#[verifier::external_body]
fn fresh_ulid() -> (v: u128) {
    ulid::Ulid::new().0
}

/// `ulid::Ulid::to_string` writes a value as 26 base-32 digits, the most significant first.
#[verifier::external_body]
fn encode_ulid(v: u128) -> (out: String)
    ensures
        out@ == ulid_text(v),
{
    ulid::Ulid(v).to_string()
}

/// `ulid::Ulid::from_string` reads 26 base-32 digits, in capital or small letters, and keeps the
/// low 128 bits of what they stand for. Every other text is refused.
#[verifier::external_body]
fn decode_ulid(s: &str) -> (out: Option<u128>)
    ensures
        out == ulid_value(s@),
{
    match ulid::Ulid::from_string(s) {
        Ok(u) => Some(u.0),
        Err(_) => None,
    }
}

/// Reads a ULID behind a prefix.
fn parse_prefixed(prefix: &str, s: &str) -> (r: Option<u128>)
    ensures
        r == prefixed_value(prefix@, s@),
{
    if !text::starts_with(s, prefix) {
        return None;
    }
    let n: usize = text::chars_of(prefix).len();
    decode_ulid(text::after(s, n).as_str())
}

impl TaskId {
    /// A new identifier.
    pub fn new() -> (id: TaskId) {
        TaskId { ulid: fresh_ulid() }
    }

    /// The text of a task's identifier.
    pub open spec fn text(self) -> Seq<char> {
        "task_"@ + ulid_text(self.ulid)
    }

    /// The identifier that a text stands for: `task_` and a ULID.
    pub open spec fn of_text(s: Seq<char>) -> Option<TaskId> {
        match prefixed_value("task_"@, s) {
            Some(ulid) => Some(TaskId { ulid }),
            None => None,
        }
    }

    /// Writes the identifier out.
    pub fn to_text(self) -> (out: String)
        ensures
            out@ == self.text(),
    {
        text::joined("task_", encode_ulid(self.ulid).as_str())
    }

    /// Reads an identifier.
    pub fn parse(s: &str) -> (r: Option<TaskId>)
        ensures
            r == TaskId::of_text(s@),
    {
        match parse_prefixed("task_", s) {
            Some(ulid) => Some(TaskId { ulid }),
            None => None,
        }
    }
}

impl LearningId {
    /// A new identifier.
    pub fn new() -> (id: LearningId) {
        LearningId { ulid: fresh_ulid() }
    }

    /// The text of a learning's identifier.
    pub open spec fn text(self) -> Seq<char> {
        "lrn_"@ + ulid_text(self.ulid)
    }

    /// The identifier that a text stands for: `lrn_` and a ULID.
    pub open spec fn of_text(s: Seq<char>) -> Option<LearningId> {
        match prefixed_value("lrn_"@, s) {
            Some(ulid) => Some(LearningId { ulid }),
            None => None,
        }
    }

    /// Writes the identifier out.
    pub fn to_text(self) -> (out: String)
        ensures
            out@ == self.text(),
    {
        text::joined("lrn_", encode_ulid(self.ulid).as_str())
    }

    /// Reads an identifier.
    pub fn parse(s: &str) -> (r: Option<LearningId>)
        ensures
            r == LearningId::of_text(s@),
    {
        match parse_prefixed("lrn_", s) {
            Some(ulid) => Some(LearningId { ulid }),
            None => None,
        }
    }
}

/// An identifier that is written out is read back as it was, so no two share a text.
pub proof fn law_ids_read_back(t: TaskId, l: LearningId)
    ensures
        TaskId::of_text(t.text()) == Some(t),
        LearningId::of_text(l.text()) == Some(l),
{
    lemma_prefixed("task_"@, t.ulid);
    lemma_prefixed("lrn_"@, l.ulid);
}

} // verus!
