//! The text a shell shows for a statement's result.

use vstd::prelude::*;

use crate::eql::ast::tier_name;
use crate::executor::{EqlResult, EqlResultView, RecordInfoView};
use crate::store::DataTier;
use crate::text::{decimal_text, push_decimal};

verus! {

broadcast use vstd::string::group_string_axioms;

/// The name of a storage tier as debugging output spells it.
pub open spec fn data_tier_label(t: DataTier) -> Seq<char> {
    match t {
        DataTier::Critical => "Critical"@,
        DataTier::Personal => "Personal"@,
        DataTier::Noise => "Noise"@,
    }
}

fn data_tier_label_str(t: DataTier) -> (s: &'static str)
    ensures
        s@ == data_tier_label(t),
{
    match t {
        DataTier::Critical => "Critical",
        DataTier::Personal => "Personal",
        DataTier::Noise => "Noise",
    }
}

/// The lines of a listing, each ending with a line feed.
pub open spec fn listing_lines(infos: Seq<RecordInfoView>) -> Seq<char>
    decreases infos.len(),
{
    if infos.len() == 0 {
        Seq::empty()
    } else {
        let i = infos.last();
        listing_lines(infos.drop_last()) + "    ["@ + data_tier_label(i.tier) + "]  "@ + i.string_id + "\n"@
    }
}

/// The lines of an audit report, each ending with a line feed.
pub open spec fn audit_report_lines(lines: Seq<Seq<char>>) -> Seq<char>
    decreases lines.len(),
{
    if lines.len() == 0 {
        Seq::empty()
    } else {
        audit_report_lines(lines.drop_last()) + "    "@ + lines.last() + "\n"@
    }
}

/// The text of a result.
pub open spec fn result_text(r: EqlResultView) -> Seq<char> {
    match r {
        EqlResultView::Written { id, tier } => "OK  WROTE   ["@ + tier_name(tier) + "] "@ + id,
        EqlResultView::Read { id, tier, payload } => "OK  READ    ["@ + data_tier_label(tier) + "] "@ + id
            + "\n    → "@ + payload,
        EqlResultView::Deleted { id } => "OK  DELETED "@ + id,
        EqlResultView::Listed(infos) => "OK  "@ + decimal_text(infos.len()) + " record(s)\n"@ + listing_lines(infos),
        EqlResultView::Audited(lines) => "OK  "@ + decimal_text(lines.len()) + " audit entry/entries\n"@
            + audit_report_lines(lines),
    }
}

impl EqlResult {
    /// The text a shell shows for this result.
    pub fn render(&self) -> (s: String)
        ensures
            s@ == result_text(self@),
    {
        let mut f = String::from_str("");
        proof {
            reveal_strlit("");
        }
        match self {
            EqlResult::Written { id, tier } => {
                f.append("OK  WROTE   [");
                f.append(tier.name());
                f.append("] ");
                f.append(id.as_str());
            },
            EqlResult::Read { id, tier, payload } => {
                f.append("OK  READ    [");
                f.append(data_tier_label_str(*tier));
                f.append("] ");
                f.append(id.as_str());
                f.append("\n    → ");
                f.append(payload.as_str());
            },
            EqlResult::Deleted { id } => {
                f.append("OK  DELETED ");
                f.append(id.as_str());
            },
            EqlResult::Listed(records) => {
                f.append("OK  ");
                push_decimal(&mut f, records.len() as u64);
                f.append(" record(s)\n");
                let ghost head = f@;
                let ghost infos = self@->Listed_0;
                let mut i: usize = 0;
                while i < records.len()
                    invariant
                        infos == records@.map_values(|x: crate::executor::RecordInfo| x@),
                        i <= records@.len(),
                        f@ == head + listing_lines(infos.take(i as int)),
                    decreases records@.len() - i,
                {
                    let r = &records[i];
                    assert(infos.take(i + 1).drop_last() =~= infos.take(i as int));
                    f.append("    [");
                    f.append(data_tier_label_str(r.tier));
                    f.append("]  ");
                    f.append(r.string_id.as_str());
                    f.append("\n");
                    i = i + 1;
                    assert(f@ =~= head + listing_lines(infos.take(i as int)));
                }
                assert(infos.take(infos.len() as int) =~= infos);
            },
            EqlResult::Audited(lines) => {
                f.append("OK  ");
                push_decimal(&mut f, lines.len() as u64);
                f.append(" audit entry/entries\n");
                let ghost head = f@;
                let ghost ls = self@->Audited_0;
                let mut i: usize = 0;
                while i < lines.len()
                    invariant
                        ls == lines@.map_values(|l: String| l@),
                        i <= lines@.len(),
                        f@ == head + audit_report_lines(ls.take(i as int)),
                    decreases lines@.len() - i,
                {
                    assert(ls.take(i + 1).drop_last() =~= ls.take(i as int));
                    f.append("    ");
                    f.append(lines[i].as_str());
                    f.append("\n");
                    i = i + 1;
                    assert(f@ =~= head + audit_report_lines(ls.take(i as int)));
                }
                assert(ls.take(ls.len() as int) =~= ls);
            },
        }
        f
    }
}

} // verus!
