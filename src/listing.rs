//! The full catalog text: a header, one block per tool, and a usage footer.
use vstd::prelude::*;
use crate::layout::{entry_block, format_entry, LABEL_WIDTH};
use crate::summary::Summary;

verus! {

/// One tool of the catalog and the summary of its help.
pub struct ToolEntry {
    pub name: String,
    pub summary: Summary,
}

/// The catalog's header, followed by a blank line.
pub open spec fn header_text(wrapper: Seq<char>) -> Seq<char> {
    "Available "@ + wrapper + " tools:\n\n"@
}

/// The usage footer, preceded by a blank line.
pub open spec fn footer_text(wrapper: Seq<char>) -> Seq<char> {
    "\nUsage: "@ + wrapper + " <tool> [args...]\nFor help on a tool: "@ + wrapper
        + " <tool> --help\n"@
}

/// The blocks of a catalog's tools, each ended by a line break.
pub open spec fn blocks_text(es: Seq<ToolEntry>, width: nat) -> Seq<char>
    decreases es.len(),
{
    if es.len() == 0 {
        Seq::empty()
    } else {
        blocks_text(es.drop_last(), width) + entry_block(
            es.last().name@,
            es.last().summary.spec_text(),
            width,
        ) + "\n"@
    }
}

/// The whole catalog text.
pub open spec fn listing_text(wrapper: Seq<char>, es: Seq<ToolEntry>, width: nat) -> Seq<char> {
    header_text(wrapper) + blocks_text(es, width) + footer_text(wrapper)
}

/// Renders the catalog of the given tools, in the given order, for a
/// terminal `width` columns wide.
pub fn render_listing(wrapper: &str, entries: &Vec<ToolEntry>, width: usize) -> (r: String)
    requires
        width >= LABEL_WIDTH,
    ensures
        r@ == listing_text(wrapper@, entries@, width as nat),
{
    proof {
        reveal_strlit("Available ");
        reveal_strlit(" tools:\n\n");
    }
    let mut r = String::from_str("Available ");
    r.append(wrapper);
    r.append(" tools:\n\n");
    let ghost head = r@;
    let mut i: usize = 0;
    while i < entries.len()
        invariant
            i <= entries@.len(),
            width >= LABEL_WIDTH,
            r@ == head + blocks_text(entries@.take(i as int), width as nat),
        decreases entries@.len() - i,
    {
        proof {
            reveal_strlit("\n");
        }
        assert(entries@.take(i + 1).drop_last() =~= entries@.take(i as int));
        let e = &entries[i];
        let text = e.summary.text();
        let block = format_entry(e.name.as_str(), text.as_str(), width);
        r.append(block.as_str());
        r.append("\n");
        i = i + 1;
    }
    assert(entries@.take(entries@.len() as int) =~= entries@);
    proof {
        reveal_strlit("\nUsage: ");
        reveal_strlit(" <tool> [args...]\nFor help on a tool: ");
        reveal_strlit(" <tool> --help\n");
    }
    r.append("\nUsage: ");
    r.append(wrapper);
    r.append(" <tool> [args...]\nFor help on a tool: ");
    r.append(wrapper);
    r.append(" <tool> --help\n");
    assert(r@ =~= listing_text(wrapper@, entries@, width as nat));
    r
}

} // verus!
