//! Reasons in one line.

use vstd::prelude::*;
use vstd::string::StringExecFns;
use crate::reason::{reason_text, Reason, ReasonView, Reasons};
use crate::reservoir_sample::{is_sample, referred, reservoir_sample_of};
use crate::text::{byte_len, byte_len_exec, decimal_chars, decimal_text, string_of};

verus! {

/// The sorts of reasons, from the most telling to the least.
#[derive(Clone, Copy, Debug, PartialEq, Eq, Structural)]
pub enum ReasonKind {
    Crate,
    PathMatchedRule,
    SymbolMatchedRule,
    UmatchedStandardPath,
    UnmatchedSymbol,
    SourceParseError,
    SourceCodeAnalysis,
}

/// The sort of a reason.
pub open spec fn kind_of(reason: ReasonView) -> ReasonKind {
    match reason {
        ReasonView::Crate(_) => ReasonKind::Crate,
        ReasonView::PathMatchedRule(_) => ReasonKind::PathMatchedRule,
        ReasonView::SymbolMatchedRule(_) => ReasonKind::SymbolMatchedRule,
        ReasonView::UmatchedStandardPath(_) => ReasonKind::UmatchedStandardPath,
        ReasonView::UnmatchedSymbol(_) => ReasonKind::UnmatchedSymbol,
        ReasonView::SourceParseError(_) => ReasonKind::SourceParseError,
        ReasonView::SourceCodeAnalysis => ReasonKind::SourceCodeAnalysis,
    }
}

/// The words that introduce reasons of a sort.
pub open spec fn header_of(kind: ReasonKind) -> Seq<char> {
    match kind {
        ReasonKind::Crate => "dependencies"@,
        ReasonKind::PathMatchedRule => "rule for"@,
        ReasonKind::SymbolMatchedRule => "rule for"@,
        ReasonKind::UmatchedStandardPath => "unknown paths"@,
        ReasonKind::UnmatchedSymbol => "unknown symbols"@,
        ReasonKind::SourceParseError => "source parse error"@,
        ReasonKind::SourceCodeAnalysis => "source code"@,
    }
}

/// The texts of those of the first `n` of `reasons` that are of the sort
/// `kind`, in order.
pub open spec fn texts_of(reasons: Seq<ReasonView>, kind: ReasonKind, n: nat) -> Seq<Seq<char>>
    decreases n,
{
    if n == 0 || n > reasons.len() {
        Seq::empty()
    } else if kind_of(reasons[n - 1]) == kind {
        texts_of(reasons, kind, (n - 1) as nat).push(reason_text(reasons[n - 1]))
    } else {
        texts_of(reasons, kind, (n - 1) as nat)
    }
}

/// The sort of reasons that is shown: the most telling of which there is one.
pub open spec fn shown_kind(reasons: Seq<ReasonView>) -> Option<ReasonKind> {
    let all = reasons.len();
    if texts_of(reasons, ReasonKind::Crate, all).len() > 0 {
        Some(ReasonKind::Crate)
    } else if texts_of(reasons, ReasonKind::PathMatchedRule, all).len() > 0 {
        Some(ReasonKind::PathMatchedRule)
    } else if texts_of(reasons, ReasonKind::SymbolMatchedRule, all).len() > 0 {
        Some(ReasonKind::SymbolMatchedRule)
    } else if texts_of(reasons, ReasonKind::UmatchedStandardPath, all).len() > 0 {
        Some(ReasonKind::UmatchedStandardPath)
    } else if texts_of(reasons, ReasonKind::UnmatchedSymbol, all).len() > 0 {
        Some(ReasonKind::UnmatchedSymbol)
    } else if texts_of(reasons, ReasonKind::SourceParseError, all).len() > 0 {
        Some(ReasonKind::SourceParseError)
    } else if texts_of(reasons, ReasonKind::SourceCodeAnalysis, all).len() > 0 {
        Some(ReasonKind::SourceCodeAnalysis)
    } else {
        None
    }
}

/// The width from which on a list is cut short, in bytes of UTF-8.
pub const MAX_WIDTH: usize = 60;

/// The line that starts as `line` and goes on with the items `sample[from..]`
/// of which `left` are left to show: each item is put behind a space as long
/// as the line takes fewer bytes than the width; the first that comes too
/// late is replaced by the number of items that are left, and ends the line.
pub open spec fn continued(line: Seq<char>, sample: Seq<Seq<char>>, from: int, left: nat) -> Seq<char>
    decreases sample.len() - from,
{
    if from < 0 || from >= sample.len() {
        line
    } else if byte_len(line) < MAX_WIDTH {
        continued(line + " "@ + sample[from], sample, from + 1, (left - 1) as nat)
    } else {
        line + " … + "@ + decimal_text(left) + " more"@
    }
}

/// The line for `total` items under `header`, of which `sample` are to be
/// shown.
pub open spec fn long_list(header: Seq<char>, total: nat, sample: Seq<Seq<char>>) -> Seq<char> {
    continued(header + ":"@, sample, 0, total)
}

/// The texts of a list of strings.
pub open spec fn string_views(strings: Seq<String>) -> Seq<Seq<char>> {
    strings.map_values(|s: String| s@)
}

/// The line for `total` items under `header`, of which `sample` are to be
/// shown.
pub fn format_long_list(header: &str, total: usize, sample: &Vec<&String>) -> (r: String)
    requires
        sample@.len() <= total,
    ensures
        r@ == long_list(header@, total as nat, string_views(referred(sample@))),
{
    let ghost texts = string_views(referred(sample@));
    let mut line = header.to_owned();
    line.append(":");
    let mut left: usize = total;
    let mut i: usize = 0;
    while i < sample.len()
        invariant
            i <= sample.len(),
            texts == string_views(referred(sample@)),
            left + i == total,
            sample@.len() <= total,
            long_list(header@, total as nat, texts) == continued(line@, texts, i as int, left as nat),
        decreases sample.len() - i,
    {
        assert(texts[i as int] == sample@[i as int]@);
        if byte_len_exec(line.as_str()) < MAX_WIDTH {
            line.append(" ");
            line.append(sample[i].as_str());
            left -= 1;
        } else {
            line.append(" … + ");
            let number = string_of(&decimal_chars(left));
            line.append(number.as_str());
            line.append(" more");
            return line;
        }
        i += 1;
    }
    line
}

impl Reason {
    /// The sort of the reason.
    pub fn kind(&self) -> (r: ReasonKind)
        ensures
            r == kind_of(self@),
    {
        match self {
            Reason::Crate(_) => ReasonKind::Crate,
            Reason::PathMatchedRule(_) => ReasonKind::PathMatchedRule,
            Reason::SymbolMatchedRule(_) => ReasonKind::SymbolMatchedRule,
            Reason::UmatchedStandardPath(_) => ReasonKind::UmatchedStandardPath,
            Reason::UnmatchedSymbol(_) => ReasonKind::UnmatchedSymbol,
            Reason::SourceParseError(_) => ReasonKind::SourceParseError,
            Reason::SourceCodeAnalysis => ReasonKind::SourceCodeAnalysis,
        }
    }
}

/// The texts of the reasons of the sort `kind`, in order.
pub fn texts_of_kind(reasons: &Reasons, kind: ReasonKind) -> (r: Vec<String>)
    ensures
        string_views(r@) == texts_of(reasons@, kind, reasons@.len()),
{
    let mut out: Vec<String> = Vec::new();
    let mut i: usize = 0;
    assert(string_views(out@) =~= texts_of(reasons@, kind, 0));
    while i < reasons.len()
        invariant
            i <= reasons@.len(),
            string_views(out@) == texts_of(reasons@, kind, i as nat),
        decreases reasons@.len() - i,
    {
        let reason = reasons.get(i);
        if reason.kind() == kind {
            let ghost before = string_views(out@);
            let text = reason.to_string();
            out.push(text);
            assert(string_views(out@) =~= before.push(text@));
        }
        i += 1;
    }
    out
}

/// The sort of reasons that is shown.
pub fn kind_to_show(reasons: &Reasons) -> (r: Option<ReasonKind>)
    ensures
        r == shown_kind(reasons@),
{
    let kinds = [
        ReasonKind::Crate,
        ReasonKind::PathMatchedRule,
        ReasonKind::SymbolMatchedRule,
        ReasonKind::UmatchedStandardPath,
        ReasonKind::UnmatchedSymbol,
        ReasonKind::SourceParseError,
        ReasonKind::SourceCodeAnalysis,
    ];
    let mut i: usize = 0;
    while i < 7
        invariant
            i <= 7,
            kinds@ == seq![
                ReasonKind::Crate,
                ReasonKind::PathMatchedRule,
                ReasonKind::SymbolMatchedRule,
                ReasonKind::UmatchedStandardPath,
                ReasonKind::UnmatchedSymbol,
                ReasonKind::SourceParseError,
                ReasonKind::SourceCodeAnalysis,
            ],
            forall|k: int| 0 <= k < i ==> texts_of(reasons@, #[trigger] kinds@[k], reasons@.len()).len() == 0,
        decreases 7 - i,
    {
        let texts = texts_of_kind(reasons, kinds[i]);
        if texts.len() > 0 {
            proof {
                assert(forall|k: int| 0 <= k < i ==> texts_of(reasons@, #[trigger] kinds@[k], reasons@.len()).len() == 0);
                assert(kinds@[0] == ReasonKind::Crate);
                assert(kinds@[1] == ReasonKind::PathMatchedRule);
                assert(kinds@[2] == ReasonKind::SymbolMatchedRule);
                assert(kinds@[3] == ReasonKind::UmatchedStandardPath);
                assert(kinds@[4] == ReasonKind::UnmatchedSymbol);
                assert(kinds@[5] == ReasonKind::SourceParseError);
                assert(kinds@[6] == ReasonKind::SourceCodeAnalysis);
            }
            return Some(kinds[i]);
        }
        i += 1;
    }
    proof {
        assert(kinds@[0] == ReasonKind::Crate);
        assert(kinds@[1] == ReasonKind::PathMatchedRule);
        assert(kinds@[2] == ReasonKind::SymbolMatchedRule);
        assert(kinds@[3] == ReasonKind::UmatchedStandardPath);
        assert(kinds@[4] == ReasonKind::UnmatchedSymbol);
        assert(kinds@[5] == ReasonKind::SourceParseError);
        assert(kinds@[6] == ReasonKind::SourceCodeAnalysis);
    }
    None
}

/// The words that introduce reasons of a sort.
pub fn header(kind: ReasonKind) -> (r: &'static str)
    ensures
        r@ == header_of(kind),
{
    match kind {
        ReasonKind::Crate => "dependencies",
        ReasonKind::PathMatchedRule => "rule for",
        ReasonKind::SymbolMatchedRule => "rule for",
        ReasonKind::UmatchedStandardPath => "unknown paths",
        ReasonKind::UnmatchedSymbol => "unknown symbols",
        ReasonKind::SourceParseError => "source parse error",
        ReasonKind::SourceCodeAnalysis => "source code",
    }
}

/// The line for reasons, given the sample of at most five that is shown of
/// the most telling sort. Reasons from the analysis of source code are not
/// listed: the line says `source code`. Without reasons the line is empty.
pub open spec fn reasons_line(reasons: Seq<ReasonView>, sample: Seq<Seq<char>>) -> Seq<char> {
    match shown_kind(reasons) {
        None => Seq::empty(),
        Some(ReasonKind::SourceCodeAnalysis) => "source code"@,
        Some(kind) => long_list(header_of(kind), texts_of(reasons, kind, reasons.len()).len(), sample),
    }
}

/// Says in one line why a crate has a capability: the reasons of the most
/// telling sort, of which a random sample of at most five is shown.
pub fn format_reasons(reasons: &Reasons) -> (r: String)
    ensures
        match shown_kind(reasons@) {
            None => r@ == Seq::<char>::empty(),
            Some(ReasonKind::SourceCodeAnalysis) => r@ == "source code"@,
            Some(kind) => exists|picks: Seq<int>, sample: Seq<Seq<char>>| #[trigger]
                is_sample(texts_of(reasons@, kind, reasons@.len()), 5, sample, picks) && r@
                    == reasons_line(reasons@, sample),
        },
{
    match kind_to_show(reasons) {
        None => String::new(),
        Some(kind) => {
            if kind == ReasonKind::SourceCodeAnalysis {
                "source code".to_owned()
            } else {
                let texts = texts_of_kind(reasons, kind);
                let sample = reservoir_sample_of(&texts, 5);
                let line = format_long_list(header(kind), texts.len(), &sample);
                proof {
                    let picks = choose|picks: Seq<int>|
                        is_sample(texts@, 5, referred(sample@), picks);
                    let shown = string_views(referred(sample@));
                    let all = texts_of(reasons@, kind, reasons@.len());
                    assert(all == string_views(texts@));
                    assert forall|k: int| 0 <= k < shown.len() implies 0 <= (#[trigger] picks[k])
                        < all.len() && shown[k] == all[picks[k]] && (picks[k] == k || picks[k]
                        >= 5) by {
                        assert(referred(sample@)[k] == texts@[picks[k]]);
                    }
                    assert(is_sample(all, 5, shown, picks));
                    assert(line@ == reasons_line(reasons@, shown));
                }
                line
            }
        },
    }
}

} // verus!
