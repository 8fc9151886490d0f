//! Quirks: compatibility flags that pick between the readings of opcode bytes whose
//! meaning differs between titles and platforms.
use vstd::prelude::*;
use crate::text::chars_of;

verus! {

/// A set of quirks, one flag per title or platform.
#[derive(Clone, Copy, Debug, PartialEq, Eq, Structural)]
pub struct Quirks {
    pub ccfc: bool,
    pub psp: bool,
    pub xbox: bool,
    pub xbox_root: bool,
    pub sg: bool,
    pub sg2: bool,
    pub phantom: bool,
    pub library_party: bool,
}

impl Quirks {
    /// No quirk at all.
    pub fn empty() -> (r: Quirks)
        ensures
            r.spec_is_empty(),
    {
        Quirks {
            ccfc: false,
            psp: false,
            xbox: false,
            xbox_root: false,
            sg: false,
            sg2: false,
            phantom: false,
            library_party: false,
        }
    }

    /// The quirks of Cross Channel: Final Complete, the default.
    pub fn ccfc_only() -> (r: Quirks)
        ensures
            r == (Quirks { ccfc: true, ..Quirks::spec_empty() }),
    {
        Quirks { ccfc: true, ..Quirks::empty() }
    }

    pub open spec fn spec_empty() -> Quirks {
        Quirks {
            ccfc: false,
            psp: false,
            xbox: false,
            xbox_root: false,
            sg: false,
            sg2: false,
            phantom: false,
            library_party: false,
        }
    }

    pub open spec fn spec_is_empty(self) -> bool {
        self == Quirks::spec_empty()
    }

    /// The quirks in effect: an empty set means CCFC alone.
    pub open spec fn in_effect(self) -> Quirks {
        if self.spec_is_empty() {
            Quirks { ccfc: true, ..Quirks::spec_empty() }
        } else {
            self
        }
    }

    /// Whether no quirk is set.
    pub fn is_empty(&self) -> (r: bool)
        ensures
            r == self.spec_is_empty(),
    {
        !(self.ccfc || self.psp || self.xbox || self.xbox_root || self.sg || self.sg2
            || self.phantom || self.library_party)
    }

    /// Whether any of the quirks of the newer releases (CCFC, XBox, XBox Root Double,
    /// Secret Garden 2) is set.
    pub open spec fn spec_newer(self) -> bool {
        self.ccfc || self.xbox || self.xbox_root || self.sg2
    }

    /// The names of the quirks, in lower case.
    pub fn names() -> (r: Vec<String>)
        ensures
            r@.len() == 7,
            r@[0]@ == "ccfc"@,
            r@[1]@ == "psp"@,
            r@[2]@ == "xbox"@,
            r@[3]@ == "xboxroot"@,
            r@[4]@ == "sg"@,
            r@[5]@ == "sg2"@,
            r@[6]@ == "phantom"@,
    {
        let mut r: Vec<String> = Vec::new();
        r.push(String::from_str("ccfc"));
        r.push(String::from_str("psp"));
        r.push(String::from_str("xbox"));
        r.push(String::from_str("xboxroot"));
        r.push(String::from_str("sg"));
        r.push(String::from_str("sg2"));
        r.push(String::from_str("phantom"));
        r
    }
}

/// Whether `s[i..j]` is one of the comma-separated items of `s`.
pub open spec fn is_item(s: Seq<char>, i: int, j: int) -> bool {
    &&& 0 <= i <= j <= s.len()
    &&& (i == 0 || s[i - 1] == ',')
    &&& (j == s.len() || s[j] == ',')
    &&& forall|k: int| i <= k < j ==> s[k] != ','
}

/// Whether `w` is one of the comma-separated items of `s`.
pub open spec fn has_item(s: Seq<char>, w: Seq<char>) -> bool {
    exists|i: int, j: int| #[trigger] is_item(s, i, j) && s.subrange(i, j) == w
}

/// The quirks that a comma-separated list names; where it names none, CCFC alone.
pub open spec fn quirks_of(s: Seq<char>) -> Quirks {
    let q = Quirks {
        ccfc: has_item(s, "ccfc"@),
        psp: has_item(s, "psp"@),
        xbox: has_item(s, "xbox"@),
        xbox_root: has_item(s, "xbox-root2"@),
        sg: has_item(s, "sg"@),
        sg2: has_item(s, "sg2"@),
        phantom: has_item(s, "phantom"@),
        library_party: has_item(s, "lp"@) || has_item(s, "library-party"@),
    };
    if q.spec_is_empty() {
        Quirks { ccfc: true, ..q }
    } else {
        q
    }
}

/// Whether `s[a..b]` is `w`.
fn span_is(s: &Vec<char>, a: usize, b: usize, w: &Vec<char>) -> (r: bool)
    requires
        a <= b <= s@.len(),
    ensures
        r == (s@.subrange(a as int, b as int) == w@),
{
    if b - a != w.len() {
        return false;
    }
    let mut k: usize = 0;
    while k < w.len()
        invariant
            a <= b <= s@.len(),
            b - a == w@.len(),
            k <= w@.len(),
            forall|x: int| 0 <= x < k ==> s@[a + x] == w@[x],
        decreases w@.len() - k,
    {
        if s[a + k] != w[k] {
            assert(s@.subrange(a as int, b as int)[k as int] != w@[k as int]);
            return false;
        }
        k += 1;
    }
    assert(s@.subrange(a as int, b as int) =~= w@);
    true
}

/// Whether `w` is one of the comma-separated items of `s`.
#[verifier::loop_isolation(false)]
fn item_in(s: &Vec<char>, w: &str) -> (r: bool)
    ensures
        r == has_item(s@, w@),
{
    let w = chars_of(w);
    let n = s.len();
    let mut start: usize = 0;
    let mut idx: usize = 0;
    let mut found = false;
    while idx < n
        invariant
            n == s@.len(),
            start <= idx <= n,
            start == 0 || s@[start - 1] == ',',
            forall|k: int| start <= k < idx ==> s@[k] != ',',
            found == exists|i: int, j: int|
                #[trigger] is_item(s@, i, j) && j < idx && s@.subrange(i, j) == w@,
        decreases n - idx,
    {
        if s[idx] == ',' {
            let same = span_is(s, start, idx, &w);
            proof {
                assert(is_item(s@, start as int, idx as int));
                assert forall|i: int| #[trigger] is_item(s@, i, idx as int) implies i == start by {
                    if i < start {
                        assert(s@[start - 1] == ',');
                    } else if i > start {
                        assert(s@[i - 1] == ',');
                    }
                }
            }
            found = found || same;
            start = idx + 1;
        } else {
            assert forall|i: int, j: int| #[trigger] is_item(s@, i, j) implies j != idx by {}
        }
        idx += 1;
    }
    let same = span_is(s, start, n, &w);
    proof {
        assert(is_item(s@, start as int, n as int));
        assert forall|i: int| #[trigger] is_item(s@, i, n as int) implies i == start by {
            if i < start {
                assert(s@[start - 1] == ',');
            } else if i > start {
                assert(s@[i - 1] == ',');
            }
        }
        assert forall|i: int, j: int| #[trigger] is_item(s@, i, j) implies j <= n by {}
    }
    found || same
}

/// Reads a comma-separated list of quirk names: `ccfc`, `xbox`, `xbox-root2`, `psp`,
/// `phantom`, `sg2`, `sg`, and `lp` or `library-party`. Where none of them is named the
/// quirks are CCFC alone.
pub fn parse_quirks_arg(quirks_arg: &str) -> (r: Quirks)
    ensures
        r == quirks_of(quirks_arg@),
{
    let s = chars_of(quirks_arg);
    let q = Quirks {
        ccfc: item_in(&s, "ccfc"),
        psp: item_in(&s, "psp"),
        xbox: item_in(&s, "xbox"),
        xbox_root: item_in(&s, "xbox-root2"),
        sg: item_in(&s, "sg"),
        sg2: item_in(&s, "sg2"),
        phantom: item_in(&s, "phantom"),
        library_party: item_in(&s, "lp") || item_in(&s, "library-party"),
    };
    if q.is_empty() {
        Quirks { ccfc: true, ..q }
    } else {
        q
    }
}

} // verus!
