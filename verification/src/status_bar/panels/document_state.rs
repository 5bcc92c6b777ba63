//! Left-zone panel: document identity + state indicators.
use vstd::prelude::*;
use crate::status_bar::model::{DocumentState, StatusModel};
use crate::text::{string_of, strings_view};

verus! {

/// The document name (or "No file"), then — for an open file — "Read-only",
/// "Modified" and "Parsing…" when they hold, in that order.
pub open spec fn document_segments_spec(m: StatusModel) -> Seq<Seq<char>> {
    let first = match m.file_name {
        Some(name) => name@,
        None => "No file"@,
    };
    let ro = if m.has_file && m.readonly { seq!["Read-only"@] } else { Seq::empty() };
    let md = if m.has_file && m.modified { seq!["Modified"@] } else { Seq::empty() };
    let pa = if m.has_file && m.document_state == DocumentState::Parsing {
        seq!["Parsing\u{2026}"@]
    } else {
        Seq::empty()
    };
    seq![first] + ro + md + pa
}

/// Build the document identity + state segments.
pub fn segments(model: &StatusModel) -> (r: Vec<String>)
    ensures
        strings_view(r@) == document_segments_spec(*model),
{
    let mut out: Vec<String> = Vec::new();
    match &model.file_name {
        Some(name) => out.push(name.clone()),
        None => out.push(string_of("No file")),
    }
    let ghost s0 = strings_view(out@);
    if model.has_file {
        if model.readonly {
            out.push(string_of("Read-only"));
        }
        let ghost s1 = strings_view(out@);
        if model.modified {
            out.push(string_of("Modified"));
        }
        let ghost s2 = strings_view(out@);
        if model.document_state == DocumentState::Parsing {
            out.push(string_of("Parsing\u{2026}"));
        }
        proof {
            let m = *model;
            let ro = if m.has_file && m.readonly { seq!["Read-only"@] } else { Seq::<Seq<char>>::empty() };
            let md = if m.has_file && m.modified { seq!["Modified"@] } else { Seq::<Seq<char>>::empty() };
            assert(s1 =~= s0 + ro);
            assert(s2 =~= s0 + ro + md);
            assert(strings_view(out@) =~= document_segments_spec(m));
        }
    } else {
        proof {
            assert(strings_view(out@) =~= document_segments_spec(*model));
        }
    }
    out
}

} // verus!
