use vstd::prelude::*;
use vstd::string::StringExecFns;

use crate::ansi::{ansi_reset, ansi_rgb_prefix, paint_rgb};
use crate::highlight::{colorize_line, colorize_text};
use crate::json::JsonModel;
use crate::level::{classify, level_styled, spec_classify, spec_level_text};
use crate::pointer::{locate_str, spec_locate_str};
use crate::record::{parse_of, parse_record};
use crate::spans::{render_spans, spec_render_spans};

verus! {

/// Why formatting one line failed; the failure ends the whole run. A line
/// that parses always renders: the parse is the one thing that can go wrong.
#[derive(PartialEq, Eq, Structural, Clone, Copy, Debug)]
pub enum FormatError {
    /// The line is not one valid JSON document.
    Parse,
}

/// Where the configurable logical fields live in a record, fixed for a run.
pub struct Config {
    pub message_pointer: String,
    pub timestamp_pointer: String,
    pub level_pointer: String,
}

impl Config {
    /// The stock field locations.
    pub fn defaults() -> (c: Config)
        ensures
            c.message_pointer@ == "/fields/message"@,
            c.timestamp_pointer@ == "/timestamp"@,
            c.level_pointer@ == "/level"@,
    {
        Config {
            message_pointer: String::from_str("/fields/message"),
            timestamp_pointer: String::from_str("/timestamp"),
            level_pointer: String::from_str("/level"),
        }
    }
}

/// Which of the two formatters handles each line, fixed for a run.
pub enum OutputMode {
    Line,
    Json,
}

/// The bracketed timestamp segment: present only when the configured
/// location holds a string, its text in light gray, the brackets plain.
pub open spec fn ts_part(m: JsonModel, p: Seq<char>) -> Seq<char> {
    match spec_locate_str(m, p) {
        Option::Some(t) => seq!['['] + ansi_rgb_prefix(180, 180, 180) + t + ansi_reset()
            + seq![']'],
        Option::None => Seq::empty(),
    }
}

/// The level segment with its unconditional leading space, present only when
/// the configured location holds a string.
pub open spec fn level_part(m: JsonModel, p: Seq<char>) -> Seq<char> {
    match spec_locate_str(m, p) {
        Option::Some(l) => seq![' '] + spec_level_text(spec_classify(l)),
        Option::None => Seq::empty(),
    }
}

/// The target segment, present only when the fixed `/target` location holds
/// a string, its text in darker gray.
pub open spec fn target_part(m: JsonModel) -> Seq<char> {
    match spec_locate_str(m, "/target"@) {
        Option::Some(t) => seq![' '] + ansi_rgb_prefix(128, 128, 128) + t + ansi_reset(),
        Option::None => Seq::empty(),
    }
}

/// The span chain segment: its leading space is always emitted, even over an
/// empty chain.
pub open spec fn span_part(m: JsonModel) -> Seq<char> {
    seq![' '] + spec_render_spans(m)
}

/// The message suffix, present only when the configured location holds a
/// string; the separating colon comes only with it.
pub open spec fn message_part(m: JsonModel, p: Seq<char>) -> Seq<char> {
    match spec_locate_str(m, p) {
        Option::Some(t) => seq![':', ' '] + t,
        Option::None => Seq::empty(),
    }
}

/// The whole line-style rendering of a record: its five segments in fixed
/// order, each omitted exactly when its field is absent.
pub open spec fn spec_format_line(
    m: JsonModel,
    ts_p: Seq<char>,
    lvl_p: Seq<char>,
    msg_p: Seq<char>,
) -> Seq<char> {
    ts_part(m, ts_p) + level_part(m, lvl_p) + target_part(m) + span_part(m) + message_part(
        m,
        msg_p,
    )
}

/// The level heading of the JSON-style rendering, with its colon and line
/// break, present only when the configured location holds a string.
pub open spec fn spec_json_heading(m: JsonModel, lvl_p: Seq<char>) -> Seq<char> {
    match spec_locate_str(m, lvl_p) {
        Option::Some(l) => spec_level_text(spec_classify(l)) + seq![':', '\n'],
        Option::None => Seq::empty(),
    }
}

/// Renders one input line in the line style; rendering is a function of the
/// line and the configuration alone, so the same line always renders to the
/// same bytes.
#[verifier::rlimit(80)]
pub fn format_line(line: &str, cfg: &Config) -> (r: Result<String, FormatError>)
    ensures
        match r {
            Result::Ok(out) => parse_of(line@) is Some && out@ == spec_format_line(
                parse_of(line@).unwrap(),
                cfg.timestamp_pointer@,
                cfg.level_pointer@,
                cfg.message_pointer@,
            ),
            Result::Err(e) => parse_of(line@) is None && e == FormatError::Parse,
        },
{
    let v = match parse_record(line) {
        Result::Ok(v) => v,
        Result::Err(e) => {
            return Result::Err(e);
        },
    };
    let mut out = String::new();
    match locate_str(&v, cfg.timestamp_pointer.as_str()) {
        Option::Some(ts) => {
            let colored = paint_rgb(ts, 180, 180, 180);
            out.push('[');
            out.append(colored.as_str());
            out.push(']');
        },
        Option::None => {},
    }
    proof {
        assert(out@ =~= ts_part(v@, cfg.timestamp_pointer@));
    }
    match locate_str(&v, cfg.level_pointer.as_str()) {
        Option::Some(lv) => {
            let l = classify(lv);
            let styled = level_styled(&l);
            out.push(' ');
            out.append(styled.as_str());
        },
        Option::None => {},
    }
    proof {
        assert(out@ =~= ts_part(v@, cfg.timestamp_pointer@) + level_part(v@, cfg.level_pointer@));
    }
    match locate_str(&v, "/target") {
        Option::Some(t) => {
            let colored = paint_rgb(t, 128, 128, 128);
            out.push(' ');
            out.append(colored.as_str());
        },
        Option::None => {},
    }
    out.push(' ');
    let chain = render_spans(&v);
    out.append(chain.as_str());
    proof {
        assert(out@ =~= ts_part(v@, cfg.timestamp_pointer@) + level_part(v@, cfg.level_pointer@)
            + target_part(v@) + span_part(v@));
    }
    match locate_str(&v, cfg.message_pointer.as_str()) {
        Option::Some(msg) => {
            out.push(':');
            out.push(' ');
            out.append(msg);
        },
        Option::None => {},
    }
    proof {
        assert(out@ =~= spec_format_line(
            v@,
            cfg.timestamp_pointer@,
            cfg.level_pointer@,
            cfg.message_pointer@,
        ));
    }
    Result::Ok(out)
}

/// Renders one input line in the JSON style: a styled level heading when the
/// level is present, then the original line text itself with syntax coloring
/// added — key order and whitespace of the source line stay exactly as they
/// were.
pub fn format_json(line: &str, cfg: &Config) -> (r: Result<String, FormatError>)
    ensures
        match r {
            Result::Ok(out) => parse_of(line@) is Some && out@ == spec_json_heading(
                parse_of(line@).unwrap(),
                cfg.level_pointer@,
            ) + colorize_text(line@),
            Result::Err(e) => parse_of(line@) is None && e == FormatError::Parse,
        },
{
    let v = match parse_record(line) {
        Result::Ok(v) => v,
        Result::Err(e) => {
            return Result::Err(e);
        },
    };
    let mut out = String::new();
    match locate_str(&v, cfg.level_pointer.as_str()) {
        Option::Some(lv) => {
            let l = classify(lv);
            let styled = level_styled(&l);
            out.append(styled.as_str());
            out.push(':');
            out.push('\n');
        },
        Option::None => {},
    }
    proof {
        assert(out@ =~= spec_json_heading(v@, cfg.level_pointer@));
    }
    let body = colorize_line(line);
    out.append(body.as_str());
    Result::Ok(out)
}

/// A record with no timestamp at its configured location gets no bracketed
/// timestamp segment, and one with no message gets no message suffix: the
/// rendered line is exactly the remaining segments.
pub proof fn lemma_absent_fields(m: JsonModel, ts_p: Seq<char>, lvl_p: Seq<char>, msg_p: Seq<char>)
    ensures
        spec_locate_str(m, ts_p) is None ==> spec_format_line(m, ts_p, lvl_p, msg_p) == level_part(
            m,
            lvl_p,
        ) + target_part(m) + span_part(m) + message_part(m, msg_p),
        spec_locate_str(m, msg_p) is None ==> spec_format_line(m, ts_p, lvl_p, msg_p) == ts_part(
            m,
            ts_p,
        ) + level_part(m, lvl_p) + target_part(m) + span_part(m),
{
    if spec_locate_str(m, ts_p) is None {
        assert(spec_format_line(m, ts_p, lvl_p, msg_p) =~= level_part(m, lvl_p) + target_part(m)
            + span_part(m) + message_part(m, msg_p));
    }
    if spec_locate_str(m, msg_p) is None {
        assert(spec_format_line(m, ts_p, lvl_p, msg_p) =~= ts_part(m, ts_p) + level_part(m, lvl_p)
            + target_part(m) + span_part(m));
    }
}

/// Rendering is deterministic: two renderings of the same record under the
/// same configuration are byte-identical.
pub proof fn lemma_render_deterministic(
    r1: Seq<char>,
    r2: Seq<char>,
    m: JsonModel,
    ts_p: Seq<char>,
    lvl_p: Seq<char>,
    msg_p: Seq<char>,
)
    ensures
        (r1 == spec_format_line(m, ts_p, lvl_p, msg_p) && r2 == spec_format_line(
            m,
            ts_p,
            lvl_p,
            msg_p,
        )) ==> r1 == r2,
{
}

/// The JSON-style rendering is deterministic too: the heading is a function
/// of the record and the configuration alone, and the body of the line alone.
pub proof fn lemma_json_render_deterministic(
    r1: Seq<char>,
    r2: Seq<char>,
    m: JsonModel,
    lvl_p: Seq<char>,
    line: Seq<char>,
)
    ensures
        (r1 == spec_json_heading(m, lvl_p) + colorize_text(line) && r2 == spec_json_heading(
            m,
            lvl_p,
        ) + colorize_text(line)) ==> r1 == r2,
{
}

} // verus!
