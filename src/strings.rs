use vstd::prelude::*;

verus! {

/// `s` with every `/` and `:` replaced by `-`.
pub open spec fn slug(s: Seq<char>) -> Seq<char> {
    s.map_values(|c: char| if c == '/' || c == ':' { '-' } else { c })
}

/// The index of the first `:` in `s` at or after `i`, or `s.len()` when there is none.
pub open spec fn colon_from(s: Seq<char>, i: nat) -> nat
    decreases s.len() - i,
{
    if i >= s.len() {
        s.len()
    } else if s[i as int] == ':' {
        i
    } else {
        colon_from(s, i + 1)
    }
}

pub open spec fn first_colon(s: Seq<char>) -> nat {
    colon_from(s, 0)
}

pub proof fn lemma_colon_from_bounds(s: Seq<char>, i: nat)
    requires
        i <= s.len(),
    ensures
        i <= colon_from(s, i) <= s.len(),
        colon_from(s, i) < s.len() ==> s[colon_from(s, i) as int] == ':',
        forall|j: int| i <= j < colon_from(s, i) ==> s[j] != ':',
    decreases s.len() - i,
{
    if i < s.len() && s[i as int] != ':' {
        lemma_colon_from_bounds(s, i + 1);
    }
}

/// Character-wise equality of two strings.
pub fn str_eq(a: &str, b: &str) -> (r: bool)
    ensures
        r == (a@ == b@),
{
    let n = a.unicode_len();
    if n != b.unicode_len() {
        return false;
    }
    let mut i: usize = 0;
    while i < n
        invariant
            n == a@.len(),
            n == b@.len(),
            i <= n,
            forall|j: int| 0 <= j < i ==> a@[j] == b@[j],
        decreases n - i,
    {
        if a.get_char(i) != b.get_char(i) {
            return false;
        }
        i = i + 1;
    }
    assert(a@ =~= b@);
    true
}

/// The position of the first `:` in `s`, or its length when it holds none.
pub fn find_colon(s: &str) -> (r: usize)
    ensures
        r as nat == first_colon(s@),
{
    let n = s.unicode_len();
    let mut i: usize = 0;
    while i < n
        invariant
            n == s@.len(),
            i <= n,
            colon_from(s@, 0) == colon_from(s@, i as nat),
        decreases n - i,
    {
        if s.get_char(i) == ':' {
            return i;
        }
        i = i + 1;
    }
    i
}

/// The string `s` with `/` and `:` replaced by `-`.
pub fn slug_of(s: &str) -> (r: String)
    ensures
        r@ == slug(s@),
{
    let n = s.unicode_len();
    let mut out = String::new();
    let mut i: usize = 0;
    while i < n
        invariant
            n == s@.len(),
            i <= n,
            out@ == slug(s@.subrange(0, i as int)),
        decreases n - i,
    {
        let c = s.get_char(i);
        proof {
            reveal_strlit("-");
            assert(s@.subrange(0, i + 1) =~= s@.subrange(0, i as int).push(c));
        }
        if c == '/' || c == ':' {
            out.append("-");
        } else {
            out.append(s.substring_char(i, i + 1));
        }
        proof {
            assert(out@ =~= slug(s@.subrange(0, i + 1)));
        }
        i = i + 1;
    }
    proof {
        assert(s@.subrange(0, n as int) =~= s@);
    }
    out
}

/// `a` followed by `b`.
pub fn join2(a: &str, b: &str) -> (r: String)
    ensures
        r@ == a@ + b@,
{
    a.to_owned().concat(b)
}

} // verus!
