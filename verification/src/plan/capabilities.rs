//! Capabilities output, derived from the catalog: no handwritten capability
//! list exists anywhere.

use crate::plan::catalog::Catalog;
use crate::plan::mode::{marks, required, AccessKind, ModeDef, Pattern};
use crate::plan::predicate::{Completeness, PredicateDef};
use crate::plan::schema::ArgDef;
use crate::text::{cat3, concatenated, join_strings, join_strs, joined, str_texts, texts};
use vstd::prelude::*;
use vstd::string::StringExecFns;

verus! {

/// How a completeness class reads.
pub open spec fn status_text(class: Completeness) -> Seq<char> {
    match class {
        Completeness::RaExact => "ra_exact"@,
        Completeness::RaResolved { caveats } => if caveats@.len() == 0 {
            "ra_resolved"@
        } else {
            "ra_resolved ("@ + joined(str_texts(caveats@), ", "@) + ")"@
        },
        Completeness::Disabled => "disabled"@,
    }
}

/// The line of one mode.
pub open spec fn mode_line(mode: ModeDef) -> Seq<char> {
    "  ("@ + marks(required(mode.pattern@)) + ") "@ + mode.cost.label() + (if mode.access is Scan {
        " scan"@
    } else {
        ""@
    }) + " via "@ + mode.operator.full_name() + " ["@ + joined(
        str_texts(mode.ra_primitives@),
        ", "@,
    ) + "]\n"@
}

/// The lines of one predicate: its signature and status, then its modes.
pub open spec fn predicate_lines(entry: PredicateDef) -> Seq<char> {
    entry.name@ + "("@ + joined(
        entry.args@.map_values(|arg: ArgDef| arg.name@ + ": "@ + arg.ty.label()),
        ", "@,
    ) + ") — "@ + status_text(entry.completeness) + "\n"@ + concatenated(
        entry.modes@.map_values(|mode: ModeDef| mode_line(mode)),
    )
}

/// How a completeness class reads.
fn render_status(class: Completeness) -> (r: String)
    ensures
        r@ == status_text(class),
{
    match class {
        Completeness::RaExact => "ra_exact".to_owned(),
        Completeness::RaResolved { caveats } => if caveats.len() == 0 {
            "ra_resolved".to_owned()
        } else {
            cat3("ra_resolved (", join_strs(caveats, ", ").as_str(), ")")
        },
        Completeness::Disabled => "disabled".to_owned(),
    }
}

/// The line of one mode.
fn render_mode_line(mode: &ModeDef) -> (r: String)
    ensures
        r@ == mode_line(*mode),
{
    let scan = match mode.access {
        AccessKind::Scan => " scan",
        AccessKind::Keyed => "",
    };
    let mut out = "  (".to_owned();
    out.append(Pattern::from_bindings(mode.pattern).render_marks().as_str());
    out.append(") ");
    out.append(mode.cost.name());
    out.append(scan);
    out.append(" via ");
    out.append(mode.operator.name());
    out.append(" [");
    out.append(join_strs(mode.ra_primitives, ", ").as_str());
    out.append("]\n");
    out
}

/// The lines of one predicate.
fn render_predicate(entry: &PredicateDef) -> (r: String)
    ensures
        r@ == predicate_lines(*entry),
{
    let mut args: Vec<String> = Vec::new();
    let mut i: usize = 0;
    while i < entry.args.len()
        invariant
            i <= entry.args@.len(),
            args@.len() == i,
            forall|k: int|
                0 <= k < i ==> (#[trigger] args@[k])@ == entry.args@[k].name@ + ": "@
                    + entry.args@[k].ty.label(),
        decreases entry.args.len() - i,
    {
        args.push(cat3(entry.args[i].name, ": ", entry.args[i].ty.name()));
        i += 1;
    }
    assert(texts(args@) =~= entry.args@.map_values(
        |arg: ArgDef| arg.name@ + ": "@ + arg.ty.label(),
    ));
    let ghost lines = entry.modes@.map_values(|mode: ModeDef| mode_line(mode));
    let mut modes = String::new();
    let mut m: usize = 0;
    assert(lines.take(0) =~= Seq::<Seq<char>>::empty());
    while m < entry.modes.len()
        invariant
            m <= entry.modes@.len(),
            lines == entry.modes@.map_values(|mode: ModeDef| mode_line(mode)),
            modes@ == concatenated(lines.take(m as int)),
        decreases entry.modes.len() - m,
    {
        modes.append(render_mode_line(&entry.modes[m]).as_str());
        proof {
            assert(lines.take(m + 1).drop_last() =~= lines.take(m as int));
            assert(lines.take(m + 1).last() == mode_line(entry.modes@[m as int]));
        }
        m += 1;
    }
    assert(lines.take(m as int) =~= lines);
    let mut out = entry.name.to_owned();
    out.append("(");
    out.append(join_strings(&args, ", ").as_str());
    out.append(") — ");
    out.append(render_status(entry.completeness).as_str());
    out.append("\n");
    out.append(modes.as_str());
    out
}

impl Catalog {
    /// Per-predicate status, modes, costs, and host primitives.
    pub fn capabilities_text(&self) -> (r: String)
        ensures
            r@ == concatenated(self@.map_values(|entry: PredicateDef| predicate_lines(entry))),
    {
        let entries = self.entries();
        let ghost parts = self@.map_values(|entry: PredicateDef| predicate_lines(entry));
        let mut out = String::new();
        let mut i: usize = 0;
        assert(parts.take(0) =~= Seq::<Seq<char>>::empty());
        while i < entries.len()
            invariant
                i <= entries@.len(),
                entries@ == self@,
                parts == self@.map_values(|entry: PredicateDef| predicate_lines(entry)),
                out@ == concatenated(parts.take(i as int)),
            decreases entries.len() - i,
        {
            out.append(render_predicate(&entries[i]).as_str());
            proof {
                assert(parts.take(i + 1).drop_last() =~= parts.take(i as int));
                assert(parts.take(i + 1).last() == predicate_lines(entries@[i as int]));
            }
            i += 1;
        }
        assert(parts.take(i as int) =~= parts);
        out
    }
}

} // verus!
