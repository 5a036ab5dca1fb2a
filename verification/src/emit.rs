//! The textual form of override groups: one section per group, headed by the
//! quoted canonical origin, with one path assignment per entry.

use crate::overrides::{EntryView, GroupView, OverrideEntry, OverrideGroup};
use vstd::prelude::*;
use vstd::string::*;

verus! {

/// The text as std's `Debug` for `str` writes it: between double quotes,
/// with escapes.
pub uninterp spec fn debug_quoted(text: Seq<char>) -> Seq<char>;

/// `format!` with `{:?}` on a `str`. The escaping depends on the text alone.
#[verifier::external_body]
fn quoted(text: &str) -> (r: String)
    ensures
        r@ == debug_quoted(text@),
{
    format!("{:?}", text)
}

/// The header line of a section, given the quoted origin.
pub open spec fn header_line(quoted_origin: Seq<char>) -> Seq<char> {
    "[patch."@ + quoted_origin + "]\n"@
}

/// The assignment line of an entry, given the quoted directory.
pub open spec fn path_line(name: Seq<char>, quoted_directory: Seq<char>) -> Seq<char> {
    name + " = { path = "@ + quoted_directory + " }\n"@
}

/// The assignment lines of the entries, in order.
pub open spec fn rendered_entries(entries: Seq<EntryView>) -> Seq<char>
    decreases entries.len(),
{
    if entries.len() == 0 {
        Seq::empty()
    } else {
        rendered_entries(entries.drop_last()) + path_line(
            entries.last().name,
            debug_quoted(entries.last().directory),
        )
    }
}

/// The section of a group: its header line, then its assignment lines.
pub open spec fn rendered_group(group: GroupView) -> Seq<char> {
    header_line(debug_quoted(group.origin)) + rendered_entries(group.entries)
}

/// The sections of the groups, in order.
pub open spec fn rendered_groups(groups: Seq<GroupView>) -> Seq<char>
    decreases groups.len(),
{
    if groups.len() == 0 {
        Seq::empty()
    } else {
        rendered_groups(groups.drop_last()) + rendered_group(groups.last())
    }
}

/// Writes the header line of a section around the quoted origin.
pub fn section_header(quoted_origin: &str) -> (line: String)
    ensures
        line@ == header_line(quoted_origin@),
{
    let mut line = String::from_str("[patch.");
    line.append(quoted_origin);
    line.append("]\n");
    line
}

/// Writes the assignment line of a package around the quoted directory.
pub fn path_assignment(name: &str, quoted_directory: &str) -> (line: String)
    ensures
        line@ == path_line(name@, quoted_directory@),
{
    let mut line = String::from_str(name);
    line.append(" = { path = ");
    line.append(quoted_directory);
    line.append(" }\n");
    line
}

/// Renders one group as a section.
pub fn render_group(group: &OverrideGroup) -> (text: String)
    ensures
        text@ == rendered_group(group@),
{
    let mut text = section_header(quoted(group.origin.as_str()).as_str());
    let ghost header = text@;
    let mut i: usize = 0;
    assert(group.entries.deep_view().take(0) =~= Seq::<EntryView>::empty());
    assert(text@ =~= header + rendered_entries(group.entries.deep_view().take(0)));
    while i < group.entries.len()
        invariant
            i <= group.entries.len(),
            text@ == header + rendered_entries(group.entries.deep_view().take(i as int)),
        decreases group.entries.len() - i,
    {
        let entry = &group.entries[i];
        let line = path_assignment(entry.name.as_str(), quoted(entry.directory.as_str()).as_str());
        proof {
            let next = group.entries.deep_view().take(i + 1);
            assert(next.drop_last() =~= group.entries.deep_view().take(i as int));
            assert(next.last() == entry@);
            assert(header + rendered_entries(next) =~= text@ + line@);
        }
        text.append(line.as_str());
        i += 1;
    }
    assert(group.entries.deep_view().take(i as int) =~= group.entries.deep_view());
    text
}

/// Renders the groups, one section after the other.
pub fn render_overrides(groups: &Vec<OverrideGroup>) -> (text: String)
    ensures
        text@ == rendered_groups(groups.deep_view()),
{
    let mut text = String::new();
    let mut i: usize = 0;
    assert(groups.deep_view().take(0) =~= Seq::<GroupView>::empty());
    while i < groups.len()
        invariant
            i <= groups.len(),
            text@ == rendered_groups(groups.deep_view().take(i as int)),
        decreases groups.len() - i,
    {
        let section = render_group(&groups[i]);
        proof {
            let next = groups.deep_view().take(i + 1);
            assert(next.drop_last() =~= groups.deep_view().take(i as int));
            assert(next.last() == groups[i as int]@);
        }
        text.append(section.as_str());
        i += 1;
    }
    assert(groups.deep_view().take(i as int) =~= groups.deep_view());
    text
}

} // verus!
