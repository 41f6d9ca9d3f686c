//! The `RETURN` clause: what a statement hands back for each record.

use super::common::{
    has_keyword, keyword, lemma_keyword_fails, lemma_keyword_reads, lemma_one_space, lemma_skip,
    scan, span, Class,
};
use vstd::prelude::*;
use vstd::string::*;

verus! {

#[derive(Clone, Copy, Debug, PartialEq, Eq)]
pub enum Output {
    /// Nothing.
    Nothing,
    /// The changes that the statement made to the record.
    Diff,
    /// The record as the statement left it.
    After,
    /// The record as the statement found it.
    Before,
}

pub open spec fn render_mode(o: Output) -> Seq<char> {
    match o {
        Output::Nothing => "NONE"@,
        Output::Diff => "DIFF"@,
        Output::After => "AFTER"@,
        Output::Before => "BEFORE"@,
    }
}

/// The text of the clause: `RETURN` and the mode.
pub open spec fn render_output(o: Output) -> Seq<char> {
    "RETURN "@ + render_mode(o)
}

/// A mode at the head of `s`, in any case.
#[verifier::opaque]
pub open spec fn spec_mode(s: Seq<char>) -> Option<(Output, nat)> {
    if has_keyword(s, "NONE"@) {
        Some((Output::Nothing, "NONE"@.len()))
    } else if has_keyword(s, "DIFF"@) {
        Some((Output::Diff, "DIFF"@.len()))
    } else if has_keyword(s, "AFTER"@) {
        Some((Output::After, "AFTER"@.len()))
    } else if has_keyword(s, "BEFORE"@) {
        Some((Output::Before, "BEFORE"@.len()))
    } else {
        None
    }
}

/// A `RETURN` clause at the head of `s`: the keyword, blanks, a mode.
#[verifier::opaque]
pub open spec fn spec_output(s: Seq<char>) -> Option<(Output, nat)> {
    if has_keyword(s, "RETURN"@) {
        let k0 = "RETURN"@.len();
        let k1 = k0 + span(s.skip(k0 as int), Class::Space);
        if k1 > k0 {
            match spec_mode(s.skip(k1 as int)) {
                Some((o, n)) => Some((o, k1 + n)),
                None => None,
            }
        } else {
            None
        }
    } else {
        None
    }
}

impl Output {
    /// Writes the clause behind what `out` holds.
    pub fn write(&self, out: &mut String)
        ensures
            final(out)@ == old(out)@ + render_output(*self),
    {
        out.append("RETURN ");
        match self {
            Output::Nothing => out.append("NONE"),
            Output::Diff => out.append("DIFF"),
            Output::After => out.append("AFTER"),
            Output::Before => out.append("BEFORE"),
        }
        assert(final(out)@ =~= old(out)@ + render_output(*self));
    }
}

/// The `RETURN` clause at `i`, if there is one, and the position behind it.
pub fn output(cs: &Vec<char>, i: usize) -> (r: Option<(Output, usize)>)
    requires
        i <= cs.len(),
    ensures
        match r {
            Some((o, j)) => i <= j <= cs.len() && spec_output(cs@.skip(i as int)) == Some(
                (o, (j - i) as nat),
            ),
            None => spec_output(cs@.skip(i as int)) is None,
        },
{
    proof {
        reveal(spec_output);
        reveal(spec_mode);
    }
    let k0 = match keyword(cs, i, "RETURN") {
        Some(p) => p,
        None => {
            return None;
        },
    };
    proof {
        lemma_skip(cs@, i as int, k0 as int);
    }
    let k1 = scan(cs, k0, Class::Space);
    if k1 == k0 {
        return None;
    }
    proof {
        lemma_skip(cs@, i as int, k1 as int);
    }
    if let Some(j) = keyword(cs, k1, "NONE") {
        return Some((Output::Nothing, j));
    }
    if let Some(j) = keyword(cs, k1, "DIFF") {
        return Some((Output::Diff, j));
    }
    if let Some(j) = keyword(cs, k1, "AFTER") {
        return Some((Output::After, j));
    }
    if let Some(j) = keyword(cs, k1, "BEFORE") {
        return Some((Output::Before, j));
    }
    None
}

/// The text of a `RETURN` clause is read back, whatever follows.
pub proof fn lemma_output_reads(o: Output, t: Seq<char>)
    ensures
        spec_output(render_output(o) + t) == Some((o, render_output(o).len())),
        render_output(o).len() > 1,
        render_output(o)[0] == 'R',
{
    reveal(spec_output);
    reveal(spec_mode);
    reveal_strlit("RETURN");
    reveal_strlit("RETURN ");
    reveal_strlit(" ");
    reveal_strlit("NONE");
    reveal_strlit("DIFF");
    reveal_strlit("AFTER");
    reveal_strlit("BEFORE");
    let m = render_mode(o);
    let x1 = m + t;
    let x0 = " "@ + x1;
    let s = render_output(o) + t;
    assert(s =~= "RETURN"@ + x0);
    assert(render_output(o) =~= "RETURN"@ + (" "@ + m));
    lemma_keyword_reads("RETURN"@, x0);
    assert(s.skip(6) =~= x0);
    assert(x1[0] == m[0]);
    lemma_one_space(x1);
    assert(s.skip(7) =~= x1);
    lemma_keyword_reads(m, t);
    match o {
        Output::Nothing => {},
        Output::Diff => {
            lemma_keyword_fails(x1, "NONE"@, 0);
        },
        Output::After => {
            lemma_keyword_fails(x1, "NONE"@, 0);
            lemma_keyword_fails(x1, "DIFF"@, 0);
        },
        Output::Before => {
            lemma_keyword_fails(x1, "NONE"@, 0);
            lemma_keyword_fails(x1, "DIFF"@, 0);
            lemma_keyword_fails(x1, "AFTER"@, 0);
        },
    }
}

} // verus!
