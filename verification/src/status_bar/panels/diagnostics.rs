//! Left-zone panel: diagnostics summary.
use vstd::prelude::*;
use crate::status_bar::model::StatusModel;
use crate::text::{dec, push_decimal, push_str, string_from_chars, strings_view};

verus! {

/// `E n` / `W n` parts joined by a space, as one segment; nothing when there
/// are no diagnostics or neither errors nor warnings.
pub open spec fn diagnostics_segments_spec(m: StatusModel) -> Seq<Seq<char>> {
    match m.diagnostics {
        None => Seq::empty(),
        Some(c) => {
            let e = "E "@ + dec(c.errors as nat);
            let w = "W "@ + dec(c.warnings as nat);
            if c.errors > 0 && c.warnings > 0 {
                seq![e + " "@ + w]
            } else if c.errors > 0 {
                seq![e]
            } else if c.warnings > 0 {
                seq![w]
            } else {
                Seq::empty()
            }
        },
    }
}

/// Build the diagnostics segment (e.g. `E 2 W 1`), or nothing when clean.
pub fn segments(model: &StatusModel) -> (r: Vec<String>)
    ensures
        strings_view(r@) == diagnostics_segments_spec(*model),
{
    let counts = match &model.diagnostics {
        Some(c) => *c,
        None => {
            let out: Vec<String> = Vec::new();
            proof {
                assert(strings_view(out@) =~= diagnostics_segments_spec(*model));
            }
            return out;
        },
    };
    if counts.errors == 0 && counts.warnings == 0 {
        let out: Vec<String> = Vec::new();
        proof {
            assert(strings_view(out@) =~= diagnostics_segments_spec(*model));
        }
        return out;
    }
    let mut text: Vec<char> = Vec::new();
    if counts.errors > 0 {
        push_str(&mut text, "E ");
        push_decimal(&mut text, counts.errors as u64);
    }
    if counts.warnings > 0 {
        if counts.errors > 0 {
            push_str(&mut text, " ");
        }
        push_str(&mut text, "W ");
        push_decimal(&mut text, counts.warnings as u64);
    }
    let mut out: Vec<String> = Vec::new();
    out.push(string_from_chars(text.as_slice()));
    proof {
        let e = "E "@ + dec(counts.errors as nat);
        let w = "W "@ + dec(counts.warnings as nat);
        if counts.errors > 0 && counts.warnings > 0 {
            assert(text@ =~= e + " "@ + w);
        } else if counts.errors > 0 {
            assert(text@ =~= e);
        } else {
            assert(text@ =~= w);
        }
        assert(strings_view(out@) =~= diagnostics_segments_spec(*model));
    }
    out
}

} // verus!
