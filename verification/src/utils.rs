//! The confirmation prompt's decisions: what the prompt line says, and
//! what a line of user input means. Reading and printing happen outside
//! the library.

use vstd::prelude::*;
use crate::order::str_compare;

verus! {

/// The lowercase form of the text, as the standard library computes it:
/// a function of the characters alone.
pub uninterp spec fn lower_of(s: Seq<char>) -> Seq<char>;

/// Relies on str::to_lowercase: the lowercase equivalent of the text.
#[verifier::external_body]
pub(crate) fn lowercase(s: &str) -> (r: String)
    ensures
        r@ == lower_of(s@),
{
    s.to_lowercase()
}

/// The prompt line shown to the user: the question, the default choice in
/// brackets when it is to be shown, and the suffix.
pub fn build_prompt_text(text: &str, suffix: &str, show_default: bool, default: Option<&str>)
    -> (r: String)
    ensures
        (default is Some && show_default) ==> r@ == text@ + " ["@ + default->0@ + "]"@
            + suffix@,
        !(default is Some && show_default) ==> r@ == text@ + suffix@,
{
    let mut out = String::new();
    out.append(text);
    match default {
        Option::Some(d) => {
            if show_default {
                out.append(" [");
                out.append(d);
                out.append("]");
                proof {
                    reveal_strlit(" [");
                    reveal_strlit("]");
                }
            }
        },
        Option::None => {},
    }
    out.append(suffix);
    proof {
        if default is Some && show_default {
            assert(out@ =~= text@ + " ["@ + default->0@ + "]"@ + suffix@);
        } else {
            assert(out@ =~= text@ + suffix@);
        }
    }
    out
}

/// What one line of prompt input decides: yes, no, the default on an empty
/// line, or nothing, so that the prompt is shown again.
pub fn confirm_decision(input: &str, default: bool) -> (r: Option<bool>)
    ensures
        input@ == "y"@ || input@ == "yes"@ ==> r == Option::Some(true),
        input@ == "n"@ || input@ == "no"@ ==> r == Option::Some(false),
        input@ == ""@ ==> r == Option::Some(default),
        r is None ==> input@ != "y"@ && input@ != "yes"@ && input@ != "n"@ && input@ != "no"@
            && input@ != ""@,
        r is Some ==> input@ == "y"@ || input@ == "yes"@ || input@ == "n"@ || input@ == "no"@
            || input@ == ""@,
{
    proof {
        reveal_strlit("y");
        reveal_strlit("yes");
        reveal_strlit("n");
        reveal_strlit("no");
        reveal_strlit("");
        crate::order::lemma_lex_cmp_eq(input@, "y"@);
        crate::order::lemma_lex_cmp_eq(input@, "yes"@);
        crate::order::lemma_lex_cmp_eq(input@, "n"@);
        crate::order::lemma_lex_cmp_eq(input@, "no"@);
        crate::order::lemma_lex_cmp_eq(input@, ""@);
    }
    if str_compare(input, "y") == 0 || str_compare(input, "yes") == 0 {
        Option::Some(true)
    } else if str_compare(input, "n") == 0 || str_compare(input, "no") == 0 {
        Option::Some(false)
    } else if str_compare(input, "") == 0 {
        Option::Some(default)
    } else {
        Option::None
    }
}

} // verus!
