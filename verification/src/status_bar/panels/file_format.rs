//! Right-zone panel: file format details.
use vstd::prelude::*;
use crate::status_bar::model::{indent_label_spec, line_ending_label_spec, StatusModel};
use crate::text::{string_of, strings_view};

verus! {

/// For an open file: indent label, encoding, line-ending label, then the
/// language when known.
pub open spec fn format_segments_spec(m: StatusModel) -> Seq<Seq<char>> {
    if !m.has_file {
        Seq::empty()
    } else {
        let base = seq![indent_label_spec(m.indent), m.encoding@, line_ending_label_spec(m.line_ending)];
        match m.language {
            Some(l) => base.push(l@),
            None => base,
        }
    }
}

/// Build the file-format segments (indent, encoding, line endings, language).
pub fn segments(model: &StatusModel) -> (r: Vec<String>)
    ensures
        strings_view(r@) == format_segments_spec(*model),
{
    let mut out: Vec<String> = Vec::new();
    if !model.has_file {
        proof {
            assert(strings_view(out@) =~= format_segments_spec(*model));
        }
        return out;
    }
    out.push(model.indent.label());
    out.push(string_of(model.encoding));
    out.push(string_of(model.line_ending.label()));
    match &model.language {
        Some(language) => out.push(language.clone()),
        None => {},
    }
    proof {
        assert(strings_view(out@) =~= format_segments_spec(*model));
    }
    out
}

} // verus!
