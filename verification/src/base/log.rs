//! What is noted of the run of another program: its command line, how it
//! ended, and what it printed.

use crate::base::text::{
    lemma_run_len_is, push_text, run_len, spec_trim, to_text_lossy, trim, utf8_lossy, views,
};
use vstd::prelude::*;
use vstd::slice::*;
use vstd::string::*;

verus! {

/// The byte that ends a line.
pub const LINE_FEED: u8 = 10;

/// The byte that may stand before the end of a line.
pub const CARRIAGE_RETURN: u8 = 13;

/// A line without the carriage return at its end, where it has one.
pub open spec fn spec_strip_return(line: Seq<u8>) -> Seq<u8> {
    if line.len() > 0 && line.last() == CARRIAGE_RETURN {
        line.drop_last()
    } else {
        line
    }
}

/// The lines of a text. A line ends with a line feed, before which a
/// carriage return may stand; neither belongs to the line. What stands
/// behind the last line feed is a line too, unless nothing stands there.
pub open spec fn spec_lines(s: Seq<u8>) -> Seq<Seq<u8>>
    decreases s.len(),
{
    let n = run_len(s, |b: u8| b == LINE_FEED);
    if s.len() == 0 {
        Seq::empty()
    } else if n >= s.len() {
        seq![s]
    } else {
        seq![spec_strip_return(s.take(n as int))] + spec_lines(s.skip(n as int + 1))
    }
}

/// Lines, each behind a line feed and a mark in the margin.
pub open spec fn spec_margin(lines: Seq<Seq<u8>>) -> Seq<u8>
    decreases lines.len(),
{
    if lines.len() == 0 {
        Seq::empty()
    } else {
        spec_margin(lines.drop_last()) + "\n  |  ".spec_bytes() + lines.last()
    }
}

/// What a program printed, as it is noted: without the blanks around it;
/// and, where it has more than one line, each line behind a mark in the
/// margin.
pub open spec fn spec_format_lines(s: Seq<u8>) -> Seq<u8> {
    let trimmed = spec_trim(s);
    if spec_lines(trimmed).len() >= 2 {
        spec_margin(spec_lines(trimmed))
    } else {
        trimmed
    }
}

/// The lines of a text.
pub fn lines(s: &[u8]) -> (r: Vec<Vec<u8>>)
    ensures
        views(r@) == spec_lines(s@),
{
    let len = s.len();
    let mut r: Vec<Vec<u8>> = Vec::new();
    let mut start: usize = 0;
    let mut i: usize = 0;
    proof {
        assert(s@.skip(0) =~= s@);
        assert(views(r@) =~= Seq::<Seq<u8>>::empty());
    }
    while i < len
        invariant
            len == s.len(),
            start <= i <= len,
            forall|k: int| start <= k < i ==> #[trigger] s@[k] != LINE_FEED,
            spec_lines(s@) == views(r@) + spec_lines(s@.skip(start as int)),
        decreases len - i,
    {
        if s[i] == LINE_FEED {
            let ghost rest = s@.skip(start as int);
            let ghost before = views(r@);
            proof {
                assert forall|k: int| 0 <= k < i - start implies !(|b: u8| b == LINE_FEED)(
                    #[trigger] rest[k],
                ) by {
                    assert(rest[k] == s@[start + k]);
                }
                lemma_run_len_is(rest, |b: u8| b == LINE_FEED, i - start);
                assert(rest.take(i - start) =~= s@.subrange(start as int, i as int));
                assert(rest.skip(i - start + 1) =~= s@.skip(i + 1));
            }
            let end = if i > start && s[i - 1] == CARRIAGE_RETURN {
                i - 1
            } else {
                i
            };
            let line = slice_to_vec(slice_subrange(s, start, end));
            proof {
                let whole = s@.subrange(start as int, i as int);
                assert(line@ =~= spec_strip_return(whole));
            }
            r.push(line);
            proof {
                assert(views(r@) =~= before + seq![spec_strip_return(rest.take(i - start))]);
                assert(before + (seq![spec_strip_return(rest.take(i - start))] + spec_lines(
                    s@.skip(i + 1),
                )) =~= views(r@) + spec_lines(s@.skip(i + 1)));
            }
            start = i + 1;
        }
        i += 1;
    }
    let ghost rest = s@.skip(start as int);
    let ghost before = views(r@);
    if start < len {
        proof {
            assert forall|k: int| 0 <= k < rest.len() implies !(|b: u8| b == LINE_FEED)(
                #[trigger] rest[k],
            ) by {
                assert(rest[k] == s@[start + k]);
            }
            lemma_run_len_is(rest, |b: u8| b == LINE_FEED, rest.len() as int);
            assert(rest =~= s@.subrange(start as int, len as int));
        }
        r.push(slice_to_vec(slice_subrange(s, start, len)));
        assert(views(r@) =~= before + seq![rest]);
    } else {
        assert(before + Seq::<Seq<u8>>::empty() =~= before);
    }
    r
}

/// What a program printed, as it is noted.
pub fn format_lines(s: &[u8]) -> (r: Vec<u8>)
    ensures
        r@ == spec_format_lines(s@),
{
    let trimmed = trim(s);
    let parts = lines(trimmed);
    if parts.len() >= 2 {
        let mut r: Vec<u8> = Vec::new();
        let mut i: usize = 0;
        assert(views(parts@).take(0) =~= Seq::<Seq<u8>>::empty());
        while i < parts.len()
            invariant
                i <= parts.len(),
                r@ == spec_margin(views(parts@).take(i as int)),
            decreases parts.len() - i,
        {
            proof {
                let all = views(parts@);
                assert(all.take(i + 1).drop_last() =~= all.take(i as int));
                assert(all.take(i + 1).last() == parts@[i as int]@);
            }
            push_text(&mut r, "\n  |  ");
            r.extend_from_slice(parts[i].as_slice());
            i += 1;
        }
        assert(views(parts@).take(i as int) =~= views(parts@));
        r
    } else {
        slice_to_vec(trimmed)
    }
}

/// What a program printed, as text, as it is noted; nothing where it
/// printed nothing.
pub open spec fn spec_printed_part(label: &str, printed: Seq<u8>) -> Seq<u8> {
    if printed.len() == 0 {
        Seq::empty()
    } else {
        label.spec_bytes() + spec_format_lines(vstd::utf8::encode_utf8(utf8_lossy(printed)))
    }
}

/// The note of the run of a program: its command line, how it ended, and
/// what it printed to its output and as its errors.
pub open spec fn spec_log_output(
    command_line: Seq<u8>,
    status: Seq<u8>,
    stdout: Seq<u8>,
    stderr: Seq<u8>,
) -> Seq<u8> {
    "command: ".spec_bytes() + command_line + "\n  => ".spec_bytes() + status + spec_printed_part(
        "\n  => stdout: ",
        stdout,
    ) + spec_printed_part("\n  => stderr: ", stderr)
}

fn push_printed(message: &mut Vec<u8>, label: &str, printed: &[u8])
    ensures
        final(message)@ == old(message)@ + spec_printed_part(label, printed@),
{
    if printed.len() > 0 {
        let shown = to_text_lossy(printed);
        let formatted = format_lines(shown.as_str().as_bytes());
        push_text(message, label);
        message.extend_from_slice(formatted.as_slice());
        assert(message@ =~= old(message)@ + spec_printed_part(label, printed@));
    } else {
        assert(message@ =~= old(message)@ + spec_printed_part(label, printed@));
    }
}

/// The note of the run of a program.
pub fn log_output(command_line: &[u8], status: &[u8], stdout: &[u8], stderr: &[u8]) -> (r: Vec<u8>)
    ensures
        r@ == spec_log_output(command_line@, status@, stdout@, stderr@),
{
    let mut message: Vec<u8> = Vec::new();
    push_text(&mut message, "command: ");
    message.extend_from_slice(command_line);
    push_text(&mut message, "\n  => ");
    message.extend_from_slice(status);
    push_printed(&mut message, "\n  => stdout: ", stdout);
    push_printed(&mut message, "\n  => stderr: ", stderr);
    assert(message@ =~= spec_log_output(command_line@, status@, stdout@, stderr@));
    message
}

} // verus!
