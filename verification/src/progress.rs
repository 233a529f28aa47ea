//! The progress text transform: one raw line of a subprocess's streamed
//! output becomes one short status message for the repository's progress
//! display. Terminal colour codes are stripped through the console crate,
//! line breaks become spaces, surrounding blanks go, and the rest is cut
//! to the display width. The subprocess itself runs outside the library.

use vstd::prelude::*;

verus! {

/// The text with its terminal escape codes removed, as the console crate
/// computes it: a function of the text alone.
pub uninterp spec fn ansi_stripped(s: Seq<char>) -> Seq<char>;

/// The text cut to the display width with the tail appended on a cut, as
/// the console crate computes it: a function of its arguments alone.
pub uninterp spec fn truncated_for_display(s: Seq<char>, width: int, tail: Seq<char>) -> Seq<
    char,
>;

/// Relies on console::strip_ansi_codes: removes terminal escape codes.
#[verifier::external_body]
fn strip_ansi(s: &str) -> (r: String)
    ensures
        r@ == ansi_stripped(s@),
{
    console::strip_ansi_codes(s).into_owned()
}

/// Relies on console::truncate_str: cuts the text to the given display
/// width, appending the tail when a cut happens and leaving escape codes
/// intact.
#[verifier::external_body]
fn truncate_status(s: &str, width: usize, tail: &str) -> (r: String)
    ensures
        r@ == truncated_for_display(s@, width as int, tail@),
{
    console::truncate_str(s, width, tail).into_owned()
}

/// A blank character: space, tab or a line break.
pub open spec fn is_blank(c: char) -> bool {
    c == ' ' || c == '\t' || c == '\n' || c == '\r'
}

/// The text with every line break replaced by a space.
pub open spec fn breaks_to_spaces(s: Seq<char>) -> Seq<char> {
    s.map_values(|c: char| if c == '\n' { ' ' } else { c })
}

/// Replaces every line break in the text by a space.
fn replace_breaks(s: &str) -> (r: String)
    ensures
        r@ == breaks_to_spaces(s@),
{
    let n = s.unicode_len();
    let mut out = String::new();
    let mut i: usize = 0;
    proof {
        assert(out@ =~= breaks_to_spaces(s@.subrange(0, 0)));
    }
    while i < n
        invariant
            n == s@.len(),
            i <= n,
            out@ == breaks_to_spaces(s@.subrange(0, i as int)),
        decreases n - i,
    {
        let ghost oldout = out@;
        let c = s.get_char(i);
        if (c as u32) == ('\n' as u32) {
            out.append(" ");
            proof {
                crate::order::lemma_char_cast_injective(c, '\n');
                reveal_strlit(" ");
            }
        } else {
            let piece = s.substring_char(i, i + 1);
            out.append(piece);
            proof {
                crate::order::lemma_char_cast_injective(c, c);
            }
        }
        proof {
            assert(s@.subrange(0, (i + 1) as int) =~= s@.subrange(0, i as int).push(
                s@[i as int],
            ));
            assert(out@ =~= breaks_to_spaces(s@.subrange(0, (i + 1) as int)));
        }
        i = i + 1;
    }
    proof {
        assert(s@.subrange(0, n as int) =~= s@);
    }
    out
}

/// The text without leading blanks.
pub open spec fn trimmed_start(s: Seq<char>) -> Seq<char>
    decreases s.len(),
{
    if s.len() == 0 {
        s
    } else if is_blank(s[0]) {
        trimmed_start(s.drop_first())
    } else {
        s
    }
}

/// The text without trailing blanks.
pub open spec fn trimmed_end(s: Seq<char>) -> Seq<char>
    decreases s.len(),
{
    if s.len() == 0 {
        s
    } else if is_blank(s.last()) {
        trimmed_end(s.drop_last())
    } else {
        s
    }
}

/// The text without leading and trailing blanks.
pub open spec fn trimmed(s: Seq<char>) -> Seq<char> {
    trimmed_end(trimmed_start(s))
}

/// Dropping blanks one by one from the front reaches the trimmed front.
proof fn lemma_trimmed_start_skip(s: Seq<char>, a: int)
    requires
        0 <= a <= s.len(),
        forall|j: int| 0 <= j < a ==> is_blank(s[j]),
        a < s.len() ==> !is_blank(s[a]),
    ensures
        trimmed_start(s) =~= s.skip(a),
    decreases a,
{
    if a == 0 {
        assert(s.skip(0) =~= s);
        if s.len() > 0 {
            assert(!is_blank(s[0]));
        }
    } else {
        assert(is_blank(s[0]));
        assert(s.drop_first().skip(a - 1) =~= s.skip(a));
        lemma_trimmed_start_skip(s.drop_first(), a - 1);
    }
}

/// Dropping blanks one by one from the back reaches the trimmed back.
proof fn lemma_trimmed_end_take(s: Seq<char>, b: int)
    requires
        0 <= b <= s.len(),
        forall|j: int| b <= j < s.len() ==> is_blank(s[j]),
        b > 0 ==> !is_blank(s[b - 1]),
    ensures
        trimmed_end(s) =~= s.take(b),
    decreases s.len() - b,
{
    if b == s.len() {
        assert(s.take(b) =~= s);
        if s.len() > 0 {
            assert(!is_blank(s.last()));
        }
    } else {
        assert(is_blank(s.last()));
        assert(s.drop_last().take(b) =~= s.take(b));
        lemma_trimmed_end_take(s.drop_last(), b);
    }
}

/// Tells whether the character is a blank.
fn is_blank_char(c: char) -> (r: bool)
    ensures
        r == is_blank(c),
{
    proof {
        lemma_blank_chars(c);
    }
    (c as u32) == (' ' as u32) || (c as u32) == ('\t' as u32) || (c as u32) == ('\n' as u32)
        || (c as u32) == ('\r' as u32)
}

/// Removes leading and trailing blanks from the text.
fn trim_blanks(s: &str) -> (r: &str)
    ensures
        r@ == trimmed(s@),
{
    let n = s.unicode_len();
    let mut a: usize = 0;
    while a < n && is_blank_char(s.get_char(a))
        invariant
            n == s@.len(),
            a <= n,
            forall|j: int| 0 <= j < a ==> is_blank(s@[j]),
        decreases n - a,
    {
        a = a + 1;
    }
    proof {
        lemma_trimmed_start_skip(s@, a as int);
    }
    let mut b: usize = n;
    while b > a && is_blank_char(s.get_char(b - 1))
        invariant
            n == s@.len(),
            a <= b <= n,
            forall|j: int| 0 <= j < a ==> is_blank(s@[j]),
            forall|j: int| b <= j < n ==> is_blank(s@[j]),
            a < n ==> !is_blank(s@[a as int]),
        decreases b,
    {
        b = b - 1;
    }
    proof {
        let t = trimmed_start(s@);
        assert(t =~= s@.skip(a as int));
        if b == a {
            // only blanks from the front marker on: everything trims away
            assert(t.len() == n - a);
            lemma_trimmed_end_take(t, 0);
            assert(s@.subrange(a as int, b as int) =~= t.take(0));
        } else {
            assert(forall|j: int| b - a <= j < t.len() ==> is_blank(#[trigger] t[j]));
            assert(!is_blank(t[b - a - 1]));
            lemma_trimmed_end_take(t, b - a);
            assert(s@.subrange(a as int, b as int) =~= t.take(b - a));
        }
    }
    s.substring_char(a, b)
}

/// Equal code points mean the same blank.
proof fn lemma_blank_chars(c: char)
    ensures
        (c as u32) == (' ' as u32) <==> c == ' ',
        (c as u32) == ('\t' as u32) <==> c == '\t',
        (c as u32) == ('\n' as u32) <==> c == '\n',
        (c as u32) == ('\r' as u32) <==> c == '\r',
{
    if (c as u32) == (' ' as u32) {
        crate::order::lemma_char_cast_injective(c, ' ');
    }
    if (c as u32) == ('\t' as u32) {
        crate::order::lemma_char_cast_injective(c, '\t');
    }
    if (c as u32) == ('\n' as u32) {
        crate::order::lemma_char_cast_injective(c, '\n');
    }
    if (c as u32) == ('\r' as u32) {
        crate::order::lemma_char_cast_injective(c, '\r');
    }
}

/// The display width a status line is cut to.
pub fn status_width() -> (r: usize)
    ensures
        r == 70,
{
    70
}

/// The status message one raw output line becomes: the repository's name,
/// then the line with escape codes stripped, breaks as spaces, blanks
/// trimmed, and the rest cut to the display width.
pub open spec fn status_message(name: Seq<char>, raw: Seq<char>) -> Seq<char> {
    name + ": "@ + truncated_for_display(
        trimmed(breaks_to_spaces(ansi_stripped(raw))),
        70,
        "..."@,
    )
}

/// Builds the status message of one raw output line.
pub fn progress_message(name: &str, raw: &str) -> (r: String)
    ensures
        r@ == status_message(name@, raw@),
{
    let plain = strip_ansi(raw);
    let spaced = replace_breaks(plain.as_str());
    let cut = truncate_status(trim_blanks(spaced.as_str()), status_width(), "...");
    let mut out = String::new();
    out.append(name);
    out.append(": ");
    out.append(cut.as_str());
    proof {
        reveal_strlit(": ");
        assert(out@ =~= status_message(name@, raw@));
    }
    out
}

} // verus!
