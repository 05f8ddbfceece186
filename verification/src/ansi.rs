//! The byte-stream transducer: a single pass over the input bytes that
//! separates literal text from CSI/SGR escape sequences, accumulates numeric
//! parameters, resolves them into style patches, and assembles contiguous
//! same-style text into runs, runs into lines, and lines into a document.
//!
//! The whole transformation is modelled by the spec-level state machine
//! `scan_step` / `scan` / `scan_finish`; the executable `ansi_to_text` is
//! proved to return exactly what the model prescribes.

use vstd::prelude::*;

use crate::Error;
use crate::sgr::spec_resolve;
use crate::sgr::resolve_onto;
use crate::style::Style;
use crate::text::{Document, Line, Run};

verus! {

/// The escape-introducer byte.
pub const ESCAPE: u8 = 0x1b;

/// The line-break byte.
pub const NEWLINE: u8 = 0x0a;

/// The parameter separator `;`.
pub const SEMICOLON: u8 = 0x3b;

/// The SGR terminator `m`.
pub const TERMINATOR: u8 = 0x6d;

/// The sequence introducer `[`.
pub const INTRODUCER: u8 = 0x5b;

/// What `simdutf8::basic::from_utf8` decodes a byte sequence to: the
/// sequence's characters when the bytes are valid UTF-8, nothing otherwise.
/// The result depends on the bytes alone.
pub uninterp spec fn utf8_chars(bytes: Seq<u8>) -> Option<Seq<char>>;

/// Relies on simdutf8::basic::from_utf8: it returns the input bytes viewed
/// as a `&str` exactly when they are valid UTF-8, and an error otherwise.
#[verifier::external_body]
fn decode_utf8(bytes: &[u8]) -> (r: Option<String>)
    ensures
        match r {
            Some(s) => utf8_chars(bytes@) == Some(s@),
            None => utf8_chars(bytes@) is None,
        },
{
    match simdutf8::basic::from_utf8(bytes) {
        Ok(s) => Some(s.to_owned()),
        Err(_) => None,
    }
}

/// A run as the model sees it: the raw bytes it will decode and the style it
/// carries.
pub ghost struct SpecRun {
    pub bytes: Seq<u8>,
    pub style: Style,
}

/// The scanner state threaded through the byte-by-byte scan.
pub ghost struct ScanState {
    /// True while inside an unterminated escape sequence.
    pub esc: bool,
    /// Decimal digit bytes of the parameter being accumulated.
    pub digits: Seq<u8>,
    /// Completed numeric parameters of the current sequence.
    pub params: Seq<nat>,
    /// Text bytes of the current run, not yet split on a style change.
    pub styled: Seq<u8>,
    /// Text bytes already committed to the run being merged, awaiting a
    /// style transition or a line end.
    pub committed: Seq<u8>,
    /// Runs already finalized on the current line.
    pub runs: Seq<SpecRun>,
    /// Lines already finalized.
    pub lines: Seq<Seq<SpecRun>>,
    /// The active style.
    pub style: Style,
    /// The style snapshot of the last committed text, used to detect style
    /// transitions.
    pub last_style: Style,
    /// The first fatal error met, if any; once set, the scan is frozen.
    pub err: Option<Error>,
}

/// The state before any byte is read.
pub open spec fn scan_init() -> ScanState {
    ScanState {
        esc: false,
        digits: Seq::empty(),
        params: Seq::empty(),
        styled: Seq::empty(),
        committed: Seq::empty(),
        runs: Seq::empty(),
        lines: Seq::empty(),
        style: Style::spec_default(),
        last_style: Style::spec_default(),
        err: None,
    }
}

/// The numeric value of a decimal digit buffer, most significant digit
/// first; the empty buffer reads as zero.
pub open spec fn digits_val(digits: Seq<u8>) -> nat
    decreases digits.len(),
{
    if digits.len() == 0 {
        0
    } else {
        (digits_val(digits.drop_last()) * 10 + digits.last() - 0x30) as nat
    }
}

/// Moving the current-run bytes into the committed-text buffer, as happens
/// when an escape sequence begins or a line ends.
pub open spec fn flush_styled(st: ScanState) -> ScanState {
    ScanState { committed: st.committed + st.styled, styled: Seq::empty(), ..st }
}

/// An escape-introducer byte: flush pending text and (re)enter escape
/// parsing, discarding any parameters of an interrupted sequence.
pub open spec fn esc_step(st: ScanState) -> ScanState {
    let f = flush_styled(st);
    ScanState { esc: true, params: Seq::empty(), ..f }
}

/// A literal text byte. Before the first byte of a new current-run, text
/// committed under a style that differs from the active one is finalized
/// into a run under that older style; the last-committed style marker then
/// takes the active style either way. Committed text whose marker equals the
/// active style is left in place, so that separate sequences resolving to an
/// identical style merge into one contiguous run.
pub open spec fn text_step(st: ScanState, b: u8) -> ScanState {
    if st.styled.len() == 0 {
        if st.committed.len() > 0 && st.last_style != st.style {
            match utf8_chars(st.committed) {
                Option::None => ScanState { err: Some(Error::Decode), ..st },
                Option::Some(_) => ScanState {
                    runs: st.runs.push(SpecRun { bytes: st.committed, style: st.last_style }),
                    committed: Seq::empty(),
                    last_style: st.style,
                    styled: seq![b],
                    ..st
                },
            }
        } else {
            ScanState { last_style: st.style, styled: seq![b], ..st }
        }
    } else {
        ScanState { styled: st.styled.push(b), ..st }
    }
}

/// A newline byte: flush pending text, finalize the committed text (if any)
/// into a run under the active style, and close the current line — an empty
/// one if nothing is pending. The escape mode is unchanged.
pub open spec fn newline_step(st: ScanState) -> ScanState {
    let text = st.committed + st.styled;
    if text.len() > 0 {
        match utf8_chars(text) {
            Option::None => ScanState { err: Some(Error::Decode), ..st },
            Option::Some(_) => ScanState {
                lines: st.lines.push(st.runs.push(SpecRun { bytes: text, style: st.style })),
                runs: Seq::empty(),
                committed: Seq::empty(),
                styled: Seq::empty(),
                ..st
            },
        }
    } else {
        ScanState { lines: st.lines.push(st.runs), runs: Seq::empty(), ..st }
    }
}

/// A parameter separator: the digit buffer (empty reads as zero) becomes the
/// next parameter, unless its value exceeds `usize`, a parse error.
pub open spec fn semi_step(st: ScanState) -> ScanState {
    if digits_val(st.digits) > usize::MAX as nat {
        ScanState { err: Some(Error::Parse), ..st }
    } else {
        ScanState { params: st.params.push(digits_val(st.digits)), digits: Seq::empty(), ..st }
    }
}

/// The terminator `m`: the final parameter is completed as for `;`, the
/// whole list is resolved into a patch and merged onto the active style, and
/// the scanner returns to text mode.
pub open spec fn m_step(st: ScanState) -> ScanState {
    if digits_val(st.digits) > usize::MAX as nat {
        ScanState { err: Some(Error::Parse), ..st }
    } else {
        let ps = st.params.push(digits_val(st.digits));
        match spec_resolve(ps) {
            Result::Err(e) => ScanState { err: Some(e), ..st },
            Result::Ok(p) => ScanState {
                style: st.style.spec_patch(p),
                params: Seq::empty(),
                digits: Seq::empty(),
                esc: false,
                ..st
            },
        }
    }
}

/// An unrecognized byte inside an escape sequence: the sequence is
/// malformed; its parameters are discarded, the scanner returns to text
/// mode, and the byte itself is consumed without being re-emitted as text.
pub open spec fn malformed_step(st: ScanState) -> ScanState {
    ScanState { params: Seq::empty(), esc: false, ..st }
}

/// One state transition per input byte. A state that already holds an error
/// is frozen. Escape-introducer and newline bytes act in both modes; all
/// other bytes are literal text in text mode, and in escape mode are
/// dispatched as parameter digits, separators, the terminator, the
/// introducer `[` (no effect), or a malformed byte.
pub open spec fn scan_step(st: ScanState, b: u8) -> ScanState {
    if st.err is Some {
        st
    } else if b == ESCAPE {
        esc_step(st)
    } else if b == NEWLINE {
        newline_step(st)
    } else if !st.esc {
        text_step(st, b)
    } else if b == SEMICOLON {
        semi_step(st)
    } else if 0x30 <= b && b <= 0x39 {
        ScanState { digits: st.digits.push(b), ..st }
    } else if b == TERMINATOR {
        m_step(st)
    } else if b == INTRODUCER {
        st
    } else {
        malformed_step(st)
    }
}

/// The scanner state after reading the whole input.
pub open spec fn scan(input: Seq<u8>) -> ScanState
    decreases input.len(),
{
    if input.len() == 0 {
        scan_init()
    } else {
        scan_step(scan(input.drop_last()), input.last())
    }
}

/// End-of-stream finalization: as a newline, except that no empty line is
/// appended when nothing is pending.
pub open spec fn scan_finish(st: ScanState) -> Result<Seq<Seq<SpecRun>>, Error> {
    match st.err {
        Some(e) => Err(e),
        None => {
            let text = st.committed + st.styled;
            if text.len() > 0 {
                match utf8_chars(text) {
                    Option::None => Err(Error::Decode),
                    Option::Some(_) => Ok(
                        st.lines.push(st.runs.push(SpecRun { bytes: text, style: st.style })),
                    ),
                }
            } else if st.runs.len() > 0 {
                Ok(st.lines.push(st.runs))
            } else {
                Ok(st.lines)
            }
        },
    }
}

/// What converting an input byte sequence yields: the model's document (a
/// sequence of lines of byte-level runs), or the first fatal error.
pub open spec fn spec_convert(input: Seq<u8>) -> Result<Seq<Seq<SpecRun>>, Error> {
    scan_finish(scan(input))
}

/// The decoded text of a model run.
pub open spec fn spec_run_text(r: SpecRun) -> Seq<char> {
    match utf8_chars(r.bytes) {
        Option::Some(s) => s,
        Option::None => Seq::empty(),
    }
}

/// A model line as decoded text: each run's characters with its style.
pub open spec fn line_of(runs: Seq<SpecRun>) -> Seq<(Seq<char>, Style)> {
    runs.map_values(|r: SpecRun| (spec_run_text(r), r.style))
}

/// The model document as decoded text.
pub open spec fn doc_of(lines: Seq<Seq<SpecRun>>) -> Seq<Seq<(Seq<char>, Style)>> {
    lines.map_values(|l: Seq<SpecRun>| line_of(l))
}

/// An executable run realizes a model run when it carries the same style and
/// its text is what the run's bytes decode to.
pub open spec fn run_matches(r: Run, s: SpecRun) -> bool {
    &&& r.style == s.style
    &&& utf8_chars(s.bytes) == Some(r.text@)
}

pub open spec fn runs_match(v: Seq<Run>, s: Seq<SpecRun>) -> bool {
    &&& v.len() == s.len()
    &&& forall|i: int| 0 <= i < s.len() ==> run_matches(#[trigger] v[i], s[i])
}

pub open spec fn lines_match(v: Seq<Line>, s: Seq<Seq<SpecRun>>) -> bool {
    &&& v.len() == s.len()
    &&& forall|i: int| 0 <= i < s.len() ==> runs_match((#[trigger] v[i]).runs@, s[i])
}

/// The correspondence between the executable scanner's buffers and the model
/// state, maintained through the scan.
pub open spec fn state_inv(
    g: ScanState,
    esc: bool,
    digits: Seq<u8>,
    params: Seq<usize>,
    styled: Seq<u8>,
    committed: Seq<u8>,
    runs: Seq<Run>,
    lines: Seq<Line>,
    style: Style,
    last_style: Style,
) -> bool {
    &&& g.err is None
    &&& esc == g.esc
    &&& digits == g.digits
    &&& forall|j: int| 0 <= j < digits.len() ==> 0x30 <= #[trigger] digits[j] <= 0x39
    &&& params.map_values(|v: usize| v as nat) == g.params
    &&& styled == g.styled
    &&& committed == g.committed
    &&& runs_match(runs, g.runs)
    &&& lines_match(lines, g.lines)
    &&& style == g.style
    &&& last_style == g.last_style
}

proof fn lemma_scan_take_step(input: Seq<u8>, i: int)
    requires
        0 <= i < input.len(),
    ensures
        scan(input.take(i + 1)) == scan_step(scan(input.take(i)), input[i]),
{
    assert(input.take(i + 1).len() == i + 1);
    assert(input.take(i + 1).drop_last() =~= input.take(i));
    assert(input.take(i + 1).last() == input[i]);
}

/// Once the model records an error, reading further bytes changes nothing.
proof fn lemma_scan_err_absorbs(input: Seq<u8>, i: int)
    requires
        0 <= i <= input.len(),
        scan(input.take(i)).err is Some,
    ensures
        scan(input) == scan(input.take(i)),
    decreases input.len() - i,
{
    if i == input.len() {
        assert(input.take(i) =~= input);
    } else {
        lemma_scan_take_step(input, i);
        lemma_scan_err_absorbs(input, i + 1);
    }
}

/// A digit buffer's value never shrinks as digits are appended.
proof fn lemma_digits_val_take_le(s: Seq<u8>, i: int)
    requires
        0 <= i <= s.len(),
        forall|j: int| 0 <= j < s.len() ==> 0x30 <= #[trigger] s[j] <= 0x39,
    ensures
        digits_val(s.take(i)) <= digits_val(s),
    decreases s.len() - i,
{
    if i == s.len() {
        assert(s.take(i) =~= s);
    } else {
        lemma_digits_val_take_le(s, i + 1);
        assert(s.take(i + 1).drop_last() =~= s.take(i));
        assert(s.take(i + 1).last() == s[i]);
        assert(digits_val(s.take(i + 1)) == (digits_val(s.take(i)) * 10 + s[i] - 0x30) as nat);
    }
}

proof fn lemma_runs_match_push(v: Seq<Run>, s: Seq<SpecRun>, r: Run, sr: SpecRun)
    requires
        runs_match(v, s),
        run_matches(r, sr),
    ensures
        runs_match(v.push(r), s.push(sr)),
{
    assert forall|i: int| 0 <= i < s.push(sr).len() implies run_matches(
        #[trigger] v.push(r)[i],
        s.push(sr)[i],
    ) by {
        if i < s.len() {
            assert(v.push(r)[i] == v[i]);
            assert(s.push(sr)[i] == s[i]);
        } else {
            assert(v.push(r)[i] == r);
            assert(s.push(sr)[i] == sr);
        }
    }
}

proof fn lemma_lines_match_push(v: Seq<Line>, s: Seq<Seq<SpecRun>>, l: Line, sl: Seq<SpecRun>)
    requires
        lines_match(v, s),
        runs_match(l.runs@, sl),
    ensures
        lines_match(v.push(l), s.push(sl)),
{
    assert forall|i: int| 0 <= i < s.push(sl).len() implies runs_match(
        (#[trigger] v.push(l)[i]).runs@,
        s.push(sl)[i],
    ) by {
        if i < s.len() {
            assert(v.push(l)[i] == v[i]);
            assert(s.push(sl)[i] == s[i]);
        } else {
            assert(v.push(l)[i] == l);
            assert(s.push(sl)[i] == sl);
        }
    }
}

/// Executable lines that realize the model's lines denote exactly the
/// model's decoded document.
proof fn lemma_lines_match_doc(v: Seq<Line>, s: Seq<Seq<SpecRun>>)
    requires
        lines_match(v, s),
    ensures
        v.map_values(|l: Line| l@) == doc_of(s),
{
    let lhs = v.map_values(|l: Line| l@);
    let rhs = doc_of(s);
    assert forall|i: int| 0 <= i < s.len() implies lhs[i] == rhs[i] by {
        let li = v[i];
        let si = s[i];
        assert(runs_match(li.runs@, si));
        assert forall|j: int| 0 <= j < si.len() implies li@[j] == line_of(si)[j] by {
            assert(run_matches(li.runs@[j], si[j]));
        }
        assert(li@ =~= line_of(si));
    }
    assert(lhs =~= rhs);
}

/// Parses the digit buffer as a decimal `usize`; fails exactly when the
/// value exceeds the representable range.
fn parse_digits(digits: &Vec<u8>) -> (r: Result<usize, Error>)
    requires
        forall|j: int| 0 <= j < digits@.len() ==> 0x30 <= #[trigger] digits@[j] <= 0x39,
    ensures
        match r {
            Ok(v) => digits_val(digits@) <= usize::MAX as nat && v as nat == digits_val(digits@),
            Err(e) => e == Error::Parse && digits_val(digits@) > usize::MAX as nat,
        },
{
    let mut acc: usize = 0;
    let mut i: usize = 0;
    while i < digits.len()
        invariant
            i <= digits@.len(),
            forall|j: int| 0 <= j < digits@.len() ==> 0x30 <= #[trigger] digits@[j] <= 0x39,
            acc as nat == digits_val(digits@.take(i as int)),
        decreases digits@.len() - i,
    {
        let d = digits[i];
        proof {
            assert(digits@.take(i as int + 1).drop_last() =~= digits@.take(i as int));
            assert(digits@.take(i as int + 1).last() == digits@[i as int]);
        }
        let scaled = match acc.checked_mul(10) {
            Some(m) => m,
            None => {
                proof {
                    lemma_digits_val_take_le(digits@, i as int + 1);
                }
                return Err(Error::Parse);
            },
        };
        acc = match scaled.checked_add((d - 0x30) as usize) {
            Some(v) => v,
            None => {
                proof {
                    lemma_digits_val_take_le(digits@, i as int + 1);
                }
                return Err(Error::Parse);
            },
        };
        i = i + 1;
    }
    proof {
        assert(digits@.take(i as int) =~= digits@);
    }
    Ok(acc)
}

/// Converts a raw byte stream holding ANSI SGR escape sequences into a
/// structured document of styled text. Returns the document the model
/// `spec_convert` prescribes, or its first fatal error: `Decode` when a
/// finalized run is not valid UTF-8, `Parse` when a numeric parameter
/// overflows or an extended-color form is incomplete.
#[verifier::loop_isolation(false)]
pub fn ansi_to_text(bytes: &[u8]) -> (r: Result<Document, Error>)
    ensures
        match r {
            Ok(doc) => match spec_convert(bytes@) {
                Result::Ok(sl) => doc@ == doc_of(sl),
                Result::Err(_) => false,
            },
            Err(e) => spec_convert(bytes@) == Result::<Seq<Seq<SpecRun>>, Error>::Err(e),
        },
{
    let mut esc: bool = false;
    let mut digits: Vec<u8> = Vec::new();
    let mut params: Vec<usize> = Vec::new();
    let mut styled: Vec<u8> = Vec::new();
    let mut committed: Vec<u8> = Vec::new();
    let mut runs: Vec<Run> = Vec::new();
    let mut lines: Vec<Line> = Vec::new();
    let mut style: Style = Style::default();
    let mut last_style: Style = style;

    proof {
        assert(bytes@.take(0) =~= Seq::<u8>::empty());
        assert(params@.map_values(|v: usize| v as nat) =~= Seq::<nat>::empty());
    }

    let mut i: usize = 0;
    while i < bytes.len()
        invariant
            i <= bytes@.len(),
            state_inv(
                scan(bytes@.take(i as int)),
                esc,
                digits@,
                params@,
                styled@,
                committed@,
                runs@,
                lines@,
                style,
                last_style,
            ),
        decreases bytes@.len() - i,
    {
        let ghost g = scan(bytes@.take(i as int));
        proof {
            lemma_scan_take_step(bytes@, i as int);
        }
        let b = bytes[i];
        if b == ESCAPE {
            committed.append(&mut styled);
            params.clear();
            esc = true;
            proof {
                assert(params@.map_values(|v: usize| v as nat) =~= Seq::<nat>::empty());
            }
        } else if b == NEWLINE {
            committed.append(&mut styled);
            if committed.len() > 0 {
                match decode_utf8(committed.as_slice()) {
                    Option::None => {
                        proof {
                            lemma_scan_err_absorbs(bytes@, i as int + 1);
                        }
                        return Err(Error::Decode);
                    },
                    Option::Some(text) => {
                        let run = Run::styled(text, style);
                        proof {
                            lemma_runs_match_push(
                                runs@,
                                g.runs,
                                run,
                                SpecRun { bytes: g.committed + g.styled, style: g.style },
                            );
                        }
                        runs.push(run);
                        committed.clear();
                        let mut finished: Vec<Run> = Vec::new();
                        core::mem::swap(&mut finished, &mut runs);
                        let line = Line::from_runs(finished);
                        proof {
                            lemma_lines_match_push(
                                lines@,
                                g.lines,
                                line,
                                g.runs.push(
                                    SpecRun { bytes: g.committed + g.styled, style: g.style },
                                ),
                            );
                        }
                        lines.push(line);
                    },
                }
            } else {
                proof {
                    assert(g.committed + g.styled =~= g.committed);
                    assert(g.styled =~= Seq::<u8>::empty());
                }
                let mut finished: Vec<Run> = Vec::new();
                core::mem::swap(&mut finished, &mut runs);
                let line = Line::from_runs(finished);
                proof {
                    lemma_lines_match_push(lines@, g.lines, line, g.runs);
                }
                lines.push(line);
            }
        } else if !esc {
            if styled.len() == 0 {
                if committed.len() > 0 && last_style != style {
                    match decode_utf8(committed.as_slice()) {
                        Option::None => {
                            proof {
                                lemma_scan_err_absorbs(bytes@, i as int + 1);
                            }
                            return Err(Error::Decode);
                        },
                        Option::Some(text) => {
                            let run = Run::styled(text, last_style);
                            proof {
                                lemma_runs_match_push(
                                    runs@,
                                    g.runs,
                                    run,
                                    SpecRun { bytes: g.committed, style: g.last_style },
                                );
                            }
                            runs.push(run);
                            committed.clear();
                        },
                    }
                }
                last_style = style;
                styled.push(b);
                proof {
                    assert(styled@ =~= seq![b]);
                }
            } else {
                styled.push(b);
            }
        } else if b == SEMICOLON {
            match parse_digits(&digits) {
                Ok(v) => {
                    params.push(v);
                    digits.clear();
                    proof {
                        assert(params@.map_values(|x: usize| x as nat) =~= g.params.push(
                            v as nat,
                        ));
                    }
                },
                Err(e) => {
                    proof {
                        lemma_scan_err_absorbs(bytes@, i as int + 1);
                    }
                    return Err(e);
                },
            }
        } else if 0x30 <= b && b <= 0x39 {
            digits.push(b);
        } else if b == TERMINATOR {
            match parse_digits(&digits) {
                Ok(v) => {
                    params.push(v);
                    digits.clear();
                    proof {
                        assert(params@.map_values(|x: usize| x as nat) =~= g.params.push(
                            v as nat,
                        ));
                    }
                    match resolve_onto(style, &params) {
                        Ok(s) => {
                            style = s;
                            params.clear();
                            esc = false;
                            proof {
                                assert(params@.map_values(|x: usize| x as nat)
                                    =~= Seq::<nat>::empty());
                            }
                        },
                        Err(e) => {
                            proof {
                                lemma_scan_err_absorbs(bytes@, i as int + 1);
                            }
                            return Err(e);
                        },
                    }
                },
                Err(e) => {
                    proof {
                        lemma_scan_err_absorbs(bytes@, i as int + 1);
                    }
                    return Err(e);
                },
            }
        } else if b == INTRODUCER {
            // the parameter section begins; nothing changes
        } else {
            // malformed sequence: discard it and return to text mode
            params.clear();
            esc = false;
            proof {
                assert(params@.map_values(|v: usize| v as nat) =~= Seq::<nat>::empty());
            }
        }
        i = i + 1;
    }

    proof {
        assert(bytes@.take(i as int) =~= bytes@);
    }
    let ghost g = scan(bytes@);

    committed.append(&mut styled);
    if committed.len() > 0 {
        match decode_utf8(committed.as_slice()) {
            Option::None => {
                return Err(Error::Decode);
            },
            Option::Some(text) => {
                let run = Run::styled(text, style);
                proof {
                    lemma_runs_match_push(
                        runs@,
                        g.runs,
                        run,
                        SpecRun { bytes: g.committed + g.styled, style: g.style },
                    );
                }
                runs.push(run);
                let line = Line::from_runs(runs);
                proof {
                    lemma_lines_match_push(
                        lines@,
                        g.lines,
                        line,
                        g.runs.push(SpecRun { bytes: g.committed + g.styled, style: g.style }),
                    );
                }
                lines.push(line);
            },
        }
    } else if runs.len() > 0 {
        let line = Line::from_runs(runs);
        proof {
            lemma_lines_match_push(lines@, g.lines, line, g.runs);
        }
        lines.push(line);
    }

    let doc = Document::from_lines(lines);
    proof {
        match spec_convert(bytes@) {
            Result::Ok(sl) => {
                lemma_lines_match_doc(doc.lines@, sl);
            },
            Result::Err(_) => {
                assert(false);
            },
        }
    }
    Ok(doc)
}

} // verus!
