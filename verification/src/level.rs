use vstd::prelude::*;
use vstd::string::StringExecFns;

use crate::ansi::{ansi_named_prefix, ansi_reset, paint_blue, paint_green, paint_red, paint_yellow};
use crate::text::str_eq;

verus! {

/// The severity of a record: one of five canonical levels, or any other text
/// carried through unchanged.
pub enum Level {
    Error,
    Warn,
    Info,
    Debug,
    Trace,
    Unknown(String),
}

/// Mathematical shape of a `Level`.
pub enum LevelModel {
    Error,
    Warn,
    Info,
    Debug,
    Trace,
    Unknown(Seq<char>),
}

impl View for Level {
    type V = LevelModel;

    open spec fn view(&self) -> LevelModel {
        match self {
            Level::Error => LevelModel::Error,
            Level::Warn => LevelModel::Warn,
            Level::Info => LevelModel::Info,
            Level::Debug => LevelModel::Debug,
            Level::Trace => LevelModel::Trace,
            Level::Unknown(s) => LevelModel::Unknown(s@),
        }
    }
}

/// What the uppercasing of a piece of text returns; it depends on the
/// characters alone.
pub uninterp spec fn upper_of(s: Seq<char>) -> Seq<char>;

/// Relies on `str::to_uppercase` of std: the Unicode uppercase equivalent of
/// the text, a function of the characters alone.
#[verifier::external_body]
fn to_upper(s: &str) -> (r: String)
    ensures
        r@ == upper_of(s@),
{
    s.to_uppercase()
}

/// How a raw level text is classified: its uppercasing is matched exactly
/// against the five canonical words, and any other text stays with its
/// original characters as `Unknown`.
pub open spec fn spec_classify(s: Seq<char>) -> LevelModel {
    let u = upper_of(s);
    if u == "ERROR"@ {
        LevelModel::Error
    } else if u == "WARN"@ {
        LevelModel::Warn
    } else if u == "INFO"@ {
        LevelModel::Info
    } else if u == "DEBUG"@ {
        LevelModel::Debug
    } else if u == "TRACE"@ {
        LevelModel::Trace
    } else {
        LevelModel::Unknown(s)
    }
}

/// Classifies a raw level text.
pub fn classify(raw: &str) -> (l: Level)
    ensures
        l@ == spec_classify(raw@),
{
    let upper = to_upper(raw);
    if str_eq(upper.as_str(), "ERROR") {
        Level::Error
    } else if str_eq(upper.as_str(), "WARN") {
        Level::Warn
    } else if str_eq(upper.as_str(), "INFO") {
        Level::Info
    } else if str_eq(upper.as_str(), "DEBUG") {
        Level::Debug
    } else if str_eq(upper.as_str(), "TRACE") {
        Level::Trace
    } else {
        Level::Unknown(raw.to_owned())
    }
}

/// How a classified level is displayed: red, yellow, green and blue escapes
/// around the four loudest canonical words, and plain text for `Trace` and
/// for anything unrecognized.
pub open spec fn spec_level_text(l: LevelModel) -> Seq<char> {
    match l {
        LevelModel::Error => ansi_named_prefix('1') + "ERROR"@ + ansi_reset(),
        LevelModel::Warn => ansi_named_prefix('3') + "WARN"@ + ansi_reset(),
        LevelModel::Info => ansi_named_prefix('2') + "INFO"@ + ansi_reset(),
        LevelModel::Debug => ansi_named_prefix('4') + "DEBUG"@ + ansi_reset(),
        LevelModel::Trace => "TRACE"@,
        LevelModel::Unknown(s) => s,
    }
}

/// The styled display text of a level.
pub fn level_styled(l: &Level) -> (r: String)
    ensures
        r@ == spec_level_text(l@),
{
    match l {
        Level::Error => paint_red("ERROR"),
        Level::Warn => paint_yellow("WARN"),
        Level::Info => paint_green("INFO"),
        Level::Debug => paint_blue("DEBUG"),
        Level::Trace => String::from_str("TRACE"),
        Level::Unknown(s) => s.clone(),
    }
}

/// Any level text whose uppercasing is one of the five canonical words is
/// classified as that word's severity, and never as `Unknown`.
pub proof fn lemma_classify_canonical(s: Seq<char>)
    ensures
        upper_of(s) == "ERROR"@ ==> spec_classify(s) == LevelModel::Error,
        upper_of(s) == "WARN"@ ==> spec_classify(s) == LevelModel::Warn,
        upper_of(s) == "INFO"@ ==> spec_classify(s) == LevelModel::Info,
        upper_of(s) == "DEBUG"@ ==> spec_classify(s) == LevelModel::Debug,
        upper_of(s) == "TRACE"@ ==> spec_classify(s) == LevelModel::Trace,
        (upper_of(s) == "ERROR"@ || upper_of(s) == "WARN"@ || upper_of(s) == "INFO"@ || upper_of(
            s,
        ) == "DEBUG"@ || upper_of(s) == "TRACE"@) ==> !(spec_classify(s) is Unknown),
{
    reveal_strlit("ERROR");
    reveal_strlit("WARN");
    reveal_strlit("INFO");
    reveal_strlit("DEBUG");
    reveal_strlit("TRACE");
    assert(("WARN"@)[0] != ("INFO"@)[0]);
    assert(("WARN"@)[0] != ("ERROR"@)[0]);
    assert(("INFO"@)[0] != ("ERROR"@)[0]);
    assert(("DEBUG"@)[0] != ("ERROR"@)[0]);
    assert(("DEBUG"@)[0] != ("TRACE"@)[0]);
    assert(("TRACE"@)[0] != ("ERROR"@)[0]);
    assert(("DEBUG"@)[0] != ("WARN"@)[0]);
    assert(("DEBUG"@)[0] != ("INFO"@)[0]);
    assert(("TRACE"@)[0] != ("WARN"@)[0]);
    assert(("TRACE"@)[0] != ("INFO"@)[0]);
}

/// Any level text whose uppercasing is none of the five canonical words is
/// classified as `Unknown`, carrying the original text unchanged, not the
/// uppercased one.
pub proof fn lemma_classify_unknown(s: Seq<char>)
    ensures
        !(upper_of(s) == "ERROR"@ || upper_of(s) == "WARN"@ || upper_of(s) == "INFO"@ || upper_of(
            s,
        ) == "DEBUG"@ || upper_of(s) == "TRACE"@) ==> spec_classify(s) == LevelModel::Unknown(s),
{
}

} // verus!
