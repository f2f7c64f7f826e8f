use vstd::prelude::*;

use crate::toolset::strs;

verus! {

/// `s` cut to fit `width` terminal columns, ending in `tail` where it was cut.
pub uninterp spec fn truncated(s: Seq<char>, width: nat, tail: Seq<char>) -> Seq<char>;

/// Relies on console::truncate_str: the string cut to a display width, with
/// `tail` appended where it was cut; the result depends on the arguments
/// alone. It subtracts the tail's display width (at most two columns a
/// character) from `width`, hence the bound.
#[verifier::external_body]
fn truncate_str(s: &str, width: usize, tail: &str) -> (r: String)
    requires
        2 * tail@.len() <= width,
    ensures
        r@ == truncated(s@, width as nat, tail@),
{
    console::truncate_str(s, width, tail).into_owned()
}

/// The strings joined with a space between each two.
pub open spec fn join_words(v: Seq<Seq<char>>) -> Seq<char>
    decreases v.len(),
{
    if v.len() == 0 {
        Seq::empty()
    } else if v.len() == 1 {
        v[0]
    } else {
        join_words(v.drop_last()) + " "@ + v.last()
    }
}

/// The strings joined with a space between each two.
pub fn join_words_of(v: &Vec<String>) -> (r: String)
    ensures
        r@ == join_words(strs(v@)),
{
    let mut out = String::new();
    let mut i: usize = 0;
    while i < v.len()
        invariant
            i <= v@.len(),
            out@ == join_words(strs(v@.subrange(0, i as int))),
        decreases v@.len() - i,
    {
        let ghost pre = strs(v@.subrange(0, i as int));
        if i > 0 {
            out.append(" ");
        }
        out.append(v[i].as_str());
        i = i + 1;
        proof {
            let now = strs(v@.subrange(0, i as int));
            assert(now =~= pre.push(v@[i - 1]@));
            assert(now.drop_last() =~= pre);
        }
    }
    proof {
        assert(v@.subrange(0, v@.len() as int) =~= v@);
    }
    out
}

/// The columns that the warning's prefix takes.
pub open spec fn prefix_width() -> nat {
    14
}

/// The warning about missing versions, given how each is displayed and the
/// terminal's width: none when nothing is missing, else the versions joined
/// with spaces, cut to the width left after the prefix.
pub fn missing_warning(styles: &Vec<String>, term_width: usize) -> (r: Option<String>)
    requires
        term_width >= prefix_width() + 2,
    ensures
        styles@.len() == 0 ==> r is None,
        styles@.len() > 0 ==> r is Some && r->Some_0@ == "missing: "@ + truncated(
            join_words(strs(styles@)),
            (term_width - prefix_width()) as nat,
            "…"@,
        ),
{
    if styles.len() == 0 {
        return None;
    }
    let joined = join_words_of(styles);
    proof {
        reveal_strlit("…");
    }
    let cut = truncate_str(joined.as_str(), term_width - 14, "…");
    Some("missing: ".to_owned().concat(cut.as_str()))
}

} // verus!
