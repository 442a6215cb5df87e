//! Calls and puts, and how they are written.
use vstd::prelude::*;
use vstd::string::*;

verus! {

/// Call or put.
#[derive(Clone, Copy, Debug, PartialEq, Eq, Structural)]
pub enum OptionKind {
    Call,
    Put,
}

impl OptionKind {
    /// Whether this is a call.
    pub fn is_call(self) -> (r: bool)
        ensures
            r == (self is Call),
    {
        match self {
            OptionKind::Call => true,
            OptionKind::Put => false,
        }
    }

    /// The letter that stands for the kind in a table.
    pub fn code(self) -> (r: &'static str)
        ensures
            r@ == code_of(self),
    {
        proof {
            reveal_strlit("c");
            reveal_strlit("p");
        }
        match self {
            OptionKind::Call => "c",
            OptionKind::Put => "p",
        }
    }
}

/// The letter that stands for a kind.
pub open spec fn code_of(kind: OptionKind) -> Seq<char> {
    match kind {
        OptionKind::Call => seq!['c'],
        OptionKind::Put => seq!['p'],
    }
}

/// One flag for each option: whether it is a call.
pub fn kinds_as_bool(k: &[OptionKind]) -> (r: Vec<bool>)
    ensures
        r@ == Seq::new(k@.len(), |i: int| k@[i] is Call),
{
    let mut r: Vec<bool> = Vec::new();
    let mut i: usize = 0;
    while i < k.len()
        invariant
            i <= k@.len(),
            r@ == Seq::new(i as nat, |j: int| k@[j] is Call),
        decreases k@.len() - i,
    {
        r.push(k[i].is_call());
        i += 1;
    }
    r
}

/// A character with the ASCII capitals made small; the others as they are.
pub open spec fn small(c: char) -> int {
    if 'A' <= c && c <= 'Z' {
        c as int + 32
    } else {
        c as int
    }
}

/// The two texts agree but for the case of ASCII letters.
pub open spec fn agrees(a: Seq<char>, b: Seq<char>) -> bool {
    a.len() == b.len() && forall|i: int| 0 <= i < a.len() ==> #[trigger] small(a[i]) == small(b[i])
}

/// The text names a put: `p` or `put`, in any case.
pub open spec fn names_put(s: Seq<char>) -> bool {
    agrees(s, seq!['p']) || agrees(s, seq!['p', 'u', 't'])
}

fn small_code(c: char) -> (r: u32)
    ensures
        r == small(c),
{
    let code: u32 = c as u32;
    if 'A' <= c && c <= 'Z' {
        code + 32
    } else {
        code
    }
}

/// Whether the text names a put.
fn is_put(s: &str) -> (r: bool)
    ensures
        r == names_put(s@),
{
    let n: usize = s.unicode_len();
    if n == 1 {
        let p: u32 = small_code(s.get_char(0));
        assert(small('p') == 112);
        if p == 112 {
            assert(agrees(s@, seq!['p']));
            return true;
        }
        assert(small(s@[0]) != small(seq!['p'][0]));
        return false;
    }
    if n == 3 {
        let p: u32 = small_code(s.get_char(0));
        let u: u32 = small_code(s.get_char(1));
        let t: u32 = small_code(s.get_char(2));
        let ghost put = seq!['p', 'u', 't'];
        assert(small(put[0]) == 112 && small(put[1]) == 117 && small(put[2]) == 116);
        if p == 112 && u == 117 && t == 116 {
            assert(agrees(s@, put));
            return true;
        }
        proof {
            if agrees(s@, put) {
                assert(small(s@[0]) == small(put[0]));
                assert(small(s@[1]) == small(put[1]));
                assert(small(s@[2]) == small(put[2]));
            }
        }
    }
    false
}

/// The kind that an item stands for, where an item that is there stands for a
/// call: a put for the empty text and for `p` and `put` in any case, and a call
/// for everything else.
pub fn parse_kind(s: &str) -> (r: OptionKind)
    ensures
        r is Put <==> s@.len() == 0 || names_put(s@),
{
    if s.unicode_len() == 0 || is_put(s) {
        OptionKind::Put
    } else {
        OptionKind::Call
    }
}

/// The kinds that the texts name, one for each text: a put for `p` and `put` in
/// any case, and a call for everything else, the empty text among it.
pub fn parse_kinds(kinds: &[String]) -> (r: Vec<OptionKind>)
    ensures
        r@.len() == kinds@.len(),
        forall|i: int| 0 <= i < r@.len() ==> (#[trigger] r@[i] is Put <==> names_put(kinds@[i]@)),
{
    let mut r: Vec<OptionKind> = Vec::new();
    let mut i: usize = 0;
    while i < kinds.len()
        invariant
            i <= kinds@.len(),
            r@.len() == i,
            forall|j: int| 0 <= j < i ==> (#[trigger] r@[j] is Put <==> names_put(kinds@[j]@)),
        decreases kinds@.len() - i,
    {
        let kind = if is_put(kinds[i].as_str()) {
            OptionKind::Put
        } else {
            OptionKind::Call
        };
        r.push(kind);
        i += 1;
    }
    r
}

/// What names a put, letter by letter: `p` or `P`, or three letters that are `p`,
/// `u` and `t` in either case. Nothing else does.
pub proof fn law_put_is_named_by_letters(s: Seq<char>)
    ensures
        names_put(s) <==> {
            ||| s.len() == 1 && (s[0] == 'p' || s[0] == 'P')
            ||| s.len() == 3 && (s[0] == 'p' || s[0] == 'P') && (s[1] == 'u' || s[1] == 'U') && (
            s[2] == 't' || s[2] == 'T')
        },
{
    let one = seq!['p'];
    let three = seq!['p', 'u', 't'];
    if agrees(s, one) {
        assert(small(s[0]) == small(one[0]));
    }
    if agrees(s, three) {
        assert(small(s[0]) == small(three[0]));
        assert(small(s[1]) == small(three[1]));
        assert(small(s[2]) == small(three[2]));
    }
}

/// The two letters are `c` and `p`; a put's letter names a put, and a call's does
/// not.
pub proof fn law_letters_name_their_kinds(kind: OptionKind)
    ensures
        code_of(OptionKind::Call) == seq!['c'],
        code_of(OptionKind::Put) == seq!['p'],
        names_put(code_of(kind)) <==> kind is Put,
{
    law_put_is_named_by_letters(code_of(kind));
}

} // verus!
