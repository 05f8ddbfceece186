//! Laws of the conversion, proved against the scanner model: what plain text
//! converts to, how many lines an input yields, that conversion is a pure
//! function of the input, and that invalid UTF-8 is rejected.

use vstd::prelude::*;

use crate::Error;
use crate::ansi::{
    ESCAPE, NEWLINE, ScanState, SpecRun, scan, scan_init, scan_step, spec_convert, utf8_chars,
};
use crate::style::Style;

verus! {

/// No byte of the input is the escape introducer.
pub open spec fn no_escape(input: Seq<u8>) -> bool {
    forall|i: int| 0 <= i < input.len() ==> input[i] != ESCAPE
}

/// No byte of the input is a newline.
pub open spec fn no_newline(input: Seq<u8>) -> bool {
    forall|i: int| 0 <= i < input.len() ==> input[i] != NEWLINE
}

/// How many newline bytes the input holds.
pub open spec fn newline_count(input: Seq<u8>) -> nat
    decreases input.len(),
{
    if input.len() == 0 {
        0
    } else {
        newline_count(input.drop_last()) + (if input.last() == NEWLINE {
            1nat
        } else {
            0nat
        })
    }
}

/// The input's closed line segments: the bytes between consecutive newlines,
/// one segment per newline byte.
pub open spec fn plain_lines(input: Seq<u8>) -> Seq<Seq<u8>>
    decreases input.len(),
{
    if input.len() == 0 {
        Seq::empty()
    } else if input.last() == NEWLINE {
        plain_lines(input.drop_last()).push(plain_tail(input.drop_last()))
    } else {
        plain_lines(input.drop_last())
    }
}

/// The bytes after the input's last newline (the whole input if it has
/// none).
pub open spec fn plain_tail(input: Seq<u8>) -> Seq<u8>
    decreases input.len(),
{
    if input.len() == 0 {
        Seq::empty()
    } else if input.last() == NEWLINE {
        Seq::empty()
    } else {
        plain_tail(input.drop_last()).push(input.last())
    }
}

/// What a line segment of escape-free input becomes: an empty line for an
/// empty segment, otherwise a single run of the segment's bytes under the
/// default style.
pub open spec fn plain_line_of(seg: Seq<u8>) -> Seq<SpecRun> {
    if seg.len() == 0 {
        Seq::empty()
    } else {
        seq![SpecRun { bytes: seg, style: Style::spec_default() }]
    }
}

/// The input split on newlines, with the trailing segment kept only when it
/// is non-empty.
pub open spec fn plain_segments(input: Seq<u8>) -> Seq<Seq<u8>> {
    if plain_tail(input).len() > 0 {
        plain_lines(input).push(plain_tail(input))
    } else {
        plain_lines(input)
    }
}

/// Whether content remains pending when the stream ends: text after the last
/// newline survived to the buffers, or runs were already finalized on the
/// unterminated final line.
pub open spec fn trailing_content(input: Seq<u8>) -> bool {
    let st = scan(input);
    (st.committed + st.styled).len() > 0 || st.runs.len() > 0
}

/// Scanning escape-free input leaves the scanner in text mode with the
/// default style, an empty parameter state, the tail segment in the
/// current-run buffer, and one finished line per newline read — each an
/// empty line or a single default-styled run — unless a closed segment
/// failed to decode.
proof fn lemma_scan_plain(input: Seq<u8>)
    requires
        no_escape(input),
    ensures
        ({
            let st = scan(input);
            &&& st.err is Some ==> st.err == Some(Error::Decode) && exists|i: int|
                0 <= i < plain_lines(input).len() && utf8_chars(
                    #[trigger] plain_lines(input)[i],
                ) is None
            &&& st.err is None ==> {
                &&& !st.esc
                &&& st.digits == Seq::<u8>::empty()
                &&& st.params == Seq::<nat>::empty()
                &&& st.committed == Seq::<u8>::empty()
                &&& st.runs == Seq::<SpecRun>::empty()
                &&& st.style == Style::spec_default()
                &&& st.last_style == Style::spec_default()
                &&& st.styled == plain_tail(input)
                &&& st.lines.len() == plain_lines(input).len()
                &&& forall|i: int|
                    0 <= i < st.lines.len() ==> st.lines[i] == plain_line_of(
                        #[trigger] plain_lines(input)[i],
                    )
            }
        }),
    decreases input.len(),
{
    if input.len() == 0 {
    } else {
        let prefix = input.drop_last();
        let b = input.last();
        assert(no_escape(prefix)) by {
            assert(forall|i: int| 0 <= i < prefix.len() ==> prefix[i] == input[i]);
        }
        lemma_scan_plain(prefix);
        let st0 = scan(prefix);
        let st = scan(input);
        assert(st == scan_step(st0, b));
        if st0.err is Some {
            let i0 = choose|i: int|
                0 <= i < plain_lines(prefix).len() && utf8_chars(
                    #[trigger] plain_lines(prefix)[i],
                ) is None;
            assert(plain_lines(input)[i0] == plain_lines(prefix)[i0]);
            assert(utf8_chars(plain_lines(input)[i0]) is None);
        } else if b == NEWLINE {
            let text = st0.committed + st0.styled;
            assert(text =~= plain_tail(prefix));
            if text.len() > 0 {
                match utf8_chars(text) {
                    Option::None => {
                        let iw = plain_lines(prefix).len() as int;
                        assert(plain_lines(input)[iw] == plain_tail(prefix));
                        assert(utf8_chars(plain_lines(input)[iw]) is None);
                    },
                    Option::Some(_) => {
                        let run = SpecRun { bytes: text, style: st0.style };
                        assert(st0.runs.push(run) =~= plain_line_of(plain_tail(prefix)));
                        assert forall|i: int| 0 <= i < st.lines.len() implies st.lines[i]
                            == plain_line_of(#[trigger] plain_lines(input)[i]) by {
                            if i < st0.lines.len() {
                                assert(st.lines[i] == st0.lines[i]);
                                assert(plain_lines(input)[i] == plain_lines(prefix)[i]);
                            }
                        }
                    },
                }
            } else {
                assert(plain_tail(prefix).len() == 0);
                assert(st0.runs =~= plain_line_of(plain_tail(prefix)));
                assert forall|i: int| 0 <= i < st.lines.len() implies st.lines[i]
                    == plain_line_of(#[trigger] plain_lines(input)[i]) by {
                    if i < st0.lines.len() {
                        assert(st.lines[i] == st0.lines[i]);
                        assert(plain_lines(input)[i] == plain_lines(prefix)[i]);
                    }
                }
            }
        } else {
            assert(b != ESCAPE);
            assert(st.styled =~= plain_tail(input));
        }
    }
}

/// Plain text round-trip: converting a stream with no escape-introducer
/// bytes yields, when it succeeds, the input split on newlines exactly —
/// one line per segment, each an empty line or one run of the whole
/// segment's bytes carrying the default style; when it fails, the failure is
/// a decode error, and some segment of the split is indeed not valid UTF-8.
pub proof fn lemma_plain_text_round_trip(input: Seq<u8>)
    requires
        no_escape(input),
    ensures
        match spec_convert(input) {
            Ok(sl) => {
                let segs = plain_segments(input);
                &&& sl.len() == segs.len()
                &&& forall|i: int|
                    0 <= i < sl.len() ==> sl[i] == plain_line_of(#[trigger] segs[i])
            },
            Err(e) => {
                &&& e == Error::Decode
                &&& exists|i: int|
                    0 <= i < plain_segments(input).len() && utf8_chars(
                        #[trigger] plain_segments(input)[i],
                    ) is None
            },
        },
{
    lemma_scan_plain(input);
    let st = scan(input);
    if st.err is Some {
        let i0 = choose|i: int|
            0 <= i < plain_lines(input).len() && utf8_chars(
                #[trigger] plain_lines(input)[i],
            ) is None;
        assert(plain_segments(input)[i0] == plain_lines(input)[i0]);
        assert(utf8_chars(plain_segments(input)[i0]) is None);
    }
    if st.err is None {
        let text = st.committed + st.styled;
        assert(text =~= plain_tail(input));
        let segs = plain_segments(input);
        if text.len() > 0 {
            match utf8_chars(text) {
                Option::None => {
                    let iw = plain_lines(input).len() as int;
                    assert(plain_tail(input).len() > 0);
                    assert(segs[iw] == plain_tail(input));
                    assert(utf8_chars(segs[iw]) is None);
                },
                Option::Some(_) => {
                    let run = SpecRun { bytes: text, style: st.style };
                    assert(st.runs.push(run) =~= plain_line_of(plain_tail(input)));
                    match spec_convert(input) {
                        Ok(sl) => {
                            assert forall|i: int| 0 <= i < sl.len() implies sl[i]
                                == plain_line_of(#[trigger] segs[i]) by {
                                if i < st.lines.len() {
                                    assert(sl[i] == st.lines[i]);
                                    assert(segs[i] == plain_lines(input)[i]);
                                }
                            }
                        },
                        Err(_) => {},
                    }
                },
            }
        } else {
            match spec_convert(input) {
                Ok(sl) => {
                    assert(sl == st.lines);
                    assert forall|i: int| 0 <= i < sl.len() implies sl[i] == plain_line_of(
                        #[trigger] segs[i],
                    ) by {
                        assert(segs[i] == plain_lines(input)[i]);
                    }
                },
                Err(_) => {},
            }
        }
    }
}

/// Success owed on plain text: an escape-free input whose every segment
/// (split on newlines) is valid UTF-8 converts without error.
pub proof fn lemma_plain_text_success(input: Seq<u8>)
    requires
        no_escape(input),
        forall|i: int|
            0 <= i < plain_segments(input).len() ==> utf8_chars(
                #[trigger] plain_segments(input)[i],
            ) is Some,
    ensures
        spec_convert(input) is Ok,
{
    lemma_plain_text_round_trip(input);
}

/// While no error has arisen, the scanner has finished exactly one line per
/// newline byte read.
proof fn lemma_scan_line_count(input: Seq<u8>)
    ensures
        scan(input).err is None ==> scan(input).lines.len() == newline_count(input),
    decreases input.len(),
{
    if input.len() == 0 {
    } else {
        lemma_scan_line_count(input.drop_last());
    }
}

/// Line-count fidelity: a successful conversion of an input with `N` newline
/// bytes yields exactly `N` lines, or `N + 1` when trailing content remains
/// pending at end of stream — consecutive newlines included, each as an
/// explicit empty line.
pub proof fn lemma_line_count(input: Seq<u8>)
    ensures
        match spec_convert(input) {
            Ok(sl) => sl.len() == newline_count(input) + (if trailing_content(input) {
                1nat
            } else {
                0nat
            }),
            Err(_) => true,
        },
{
    lemma_scan_line_count(input);
    let st = scan(input);
    match spec_convert(input) {
        Ok(sl) => {
            let text = st.committed + st.styled;
            if text.len() == 0 && st.runs.len() == 0 {
                assert(!trailing_content(input));
            }
        },
        Err(_) => {},
    }
}

/// Conversion is a pure function: equal input byte sequences prescribe equal
/// documents (and `ansi_to_text`'s contract pins its result to this
/// prescription, so two calls on equal inputs return equal views).
pub proof fn lemma_convert_pure(a: Seq<u8>, b: Seq<u8>)
    requires
        a == b,
    ensures
        spec_convert(a) == spec_convert(b),
{
}

/// Scanning input free of escapes and newlines only fills the current-run
/// buffer: the final state is the initial one with the whole input pending.
proof fn lemma_scan_single_segment(input: Seq<u8>)
    requires
        no_escape(input),
        no_newline(input),
    ensures
        scan(input) == (ScanState { styled: input, ..scan_init() }),
    decreases input.len(),
{
    if input.len() == 0 {
        assert(scan(input) == scan_init());
        assert(input =~= Seq::<u8>::empty());
    } else {
        let prefix = input.drop_last();
        assert(no_escape(prefix) && no_newline(prefix)) by {
            assert(forall|i: int| 0 <= i < prefix.len() ==> prefix[i] == input[i]);
        }
        lemma_scan_single_segment(prefix);
        assert(prefix.push(input.last()) =~= input);
    }
}

/// Invalid UTF-8 rejection: a text-only input (no escapes, no newlines) that
/// is not valid UTF-8 makes the whole conversion fail with a decode error —
/// no lossy substitution.
pub proof fn lemma_invalid_utf8_rejected(input: Seq<u8>)
    requires
        no_escape(input),
        no_newline(input),
        input.len() > 0,
        utf8_chars(input) is None,
    ensures
        spec_convert(input) == Result::<Seq<Seq<SpecRun>>, Error>::Err(Error::Decode),
{
    lemma_scan_single_segment(input);
    let st = scan(input);
    assert(st.committed + st.styled =~= input);
}

} // verus!
