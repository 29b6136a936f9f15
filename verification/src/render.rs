//! Assembly of the output document: the collected configuration entries,
//! grouped by XDG directory and component, are rendered into one Nix
//! attribute set. Pure text construction; reading the entries from disk is
//! the caller's business.

use vstd::prelude::*;

use crate::escape::hex_digit;
use crate::escape::hex_digit_char;
use crate::serialize::serialize_line;
use crate::serialize::to_nix_expression;
use crate::strutil::push_char;

verus! {

/// The decimal digits of a number, most significant first.
pub open spec fn dec_str(v: nat) -> Seq<char>
    decreases v,
{
    if v < 10 {
        seq![hex_digit_char(v)]
    } else {
        dec_str(v / 10) + seq![hex_digit_char(v % 10)]
    }
}

/// Formats a number in decimal.
pub fn format_u64(v: u64) -> (r: String)
    ensures
        r@ == dec_str(v as nat),
    decreases v,
{
    if v < 10 {
        let mut s = String::new();
        push_char(&mut s, hex_digit(v as u32));
        proof {
            assert(s@ =~= dec_str(v as nat));
        }
        s
    } else {
        let mut s = format_u64(v / 10);
        push_char(&mut s, hex_digit((v % 10) as u32));
        proof {
            assert(s@ =~= dec_str((v / 10) as nat) + seq![hex_digit_char((v % 10) as nat)]);
        }
        s
    }
}

/// One component's collected entries: the version of its configuration
/// schema and the entries' names with their raw contents.
pub struct ComponentData {
    /// The component's schema version.
    pub version: u64,
    /// Entry name and raw entry text, in the order they are to be emitted.
    pub entries: Vec<(String, String)>,
}

/// The binding lines of a run of entries, each serialized with the given
/// indentation.
pub open spec fn entries_lines(entries: Seq<(String, String)>, indent: Seq<char>) -> Seq<char>
    decreases entries.len(),
{
    if entries.len() == 0 {
        Seq::empty()
    } else {
        serialize_line(Some(entries[0].0@), entries[0].1@, indent, false) + entries_lines(
            entries.drop_first(),
            indent,
        )
    }
}

proof fn lemma_entries_lines_push(entries: Seq<(String, String)>, e: (String, String), indent: Seq<char>)
    ensures
        entries_lines(entries.push(e), indent) == entries_lines(entries, indent) + serialize_line(
            Some(e.0@),
            e.1@,
            indent,
            false,
        ),
    decreases entries.len(),
{
    if entries.len() == 0 {
        assert(entries.push(e)[0] == e);
        assert(entries.push(e).drop_first() =~= Seq::<(String, String)>::empty());
        assert(entries_lines(Seq::<(String, String)>::empty(), indent) == Seq::<char>::empty());
        assert(entries_lines(entries.push(e), indent) =~= entries_lines(entries, indent)
            + serialize_line(Some(e.0@), e.1@, indent, false));
    } else {
        assert(entries.push(e)[0] == entries[0]);
        assert(entries.push(e).drop_first() =~= entries.drop_first().push(e));
        lemma_entries_lines_push(entries.drop_first(), e, indent);
        assert(entries_lines(entries.push(e), indent) =~= entries_lines(entries, indent)
            + serialize_line(Some(e.0@), e.1@, indent, false));
    }
}

/// Serializes a run of entries into binding lines, one per entry, in order.
pub fn render_entries(entries: &Vec<(String, String)>, indent: &str) -> (r: String)
    ensures
        r@ == entries_lines(entries@, indent@),
{
    let mut out = String::new();
    let mut i: usize = 0;
    while i < entries.len()
        invariant
            i <= entries@.len(),
            out@ == entries_lines(entries@.take(i as int), indent@),
        decreases entries@.len() - i,
    {
        let line = to_nix_expression(
            Some(entries[i].0.as_str()),
            entries[i].1.as_str(),
            indent,
            None,
        );
        proof {
            lemma_entries_lines_push(entries@.take(i as int), entries@[i as int], indent@);
            assert(entries@.take(i as int).push(entries@[i as int]) =~= entries@.take(i as int + 1));
        }
        out.append(line.as_str());
        i = i + 1;
    }
    proof {
        assert(entries@.take(entries@.len() as int) =~= entries@);
    }
    out
}

/// The block emitted for one component: its quoted name, its version, and
/// its entries.
pub open spec fn component_block(name: Seq<char>, version: u64, entries: Seq<(String, String)>) -> Seq<char> {
    "      \""@ + name + "\" = {\n"@ + "        version = "@ + dec_str(version as nat) + ";\n"@
        + "        entries = {\n"@ + entries_lines(entries, "          "@) + "        };\n"@
        + "      };\n"@
}

/// Renders one component's block.
pub fn render_component(name: &str, data: &ComponentData) -> (r: String)
    ensures
        r@ == component_block(name@, data.version, data.entries@),
{
    let mut out = String::from_str("      \"");
    out.append(name);
    out.append("\" = {\n");
    out.append("        version = ");
    let v = format_u64(data.version);
    out.append(v.as_str());
    out.append(";\n");
    out.append("        entries = {\n");
    let lines = render_entries(&data.entries, "          ");
    out.append(lines.as_str());
    out.append("        };\n");
    out.append("      };\n");
    proof {
        assert(out@ =~= component_block(name@, data.version, data.entries@));
    }
    out
}

/// The blocks of a run of components, in order.
pub open spec fn components_blocks(components: Seq<(String, ComponentData)>) -> Seq<char>
    decreases components.len(),
{
    if components.len() == 0 {
        Seq::empty()
    } else {
        component_block(components[0].0@, components[0].1.version, components[0].1.entries@)
            + components_blocks(components.drop_first())
    }
}

proof fn lemma_components_blocks_push(components: Seq<(String, ComponentData)>, c: (String, ComponentData))
    ensures
        components_blocks(components.push(c)) == components_blocks(components) + component_block(
            c.0@,
            c.1.version,
            c.1.entries@,
        ),
    decreases components.len(),
{
    if components.len() == 0 {
        assert(components.push(c)[0] == c);
        assert(components.push(c).drop_first() =~= Seq::<(String, ComponentData)>::empty());
        assert(components_blocks(Seq::<(String, ComponentData)>::empty()) == Seq::<char>::empty());
        assert(components_blocks(components.push(c)) =~= components_blocks(components)
            + component_block(c.0@, c.1.version, c.1.entries@));
    } else {
        assert(components.push(c)[0] == components[0]);
        assert(components.push(c).drop_first() =~= components.drop_first().push(c));
        lemma_components_blocks_push(components.drop_first(), c);
        assert(components_blocks(components.push(c)) =~= components_blocks(components)
            + component_block(c.0@, c.1.version, c.1.entries@));
    }
}

/// The section emitted for one XDG directory: a `{name}File` attribute
/// holding the components found under it.
pub open spec fn section_block(xdg_dir: Seq<char>, components: Seq<(String, ComponentData)>) -> Seq<char> {
    "    "@ + xdg_dir + "File = {\n"@ + components_blocks(components) + "    };\n"@
}

/// Renders the section of one XDG directory.
pub fn render_section(xdg_dir: &str, components: &Vec<(String, ComponentData)>) -> (r: String)
    ensures
        r@ == section_block(xdg_dir@, components@),
{
    let mut out = String::from_str("    ");
    out.append(xdg_dir);
    out.append("File = {\n");
    let mut i: usize = 0;
    while i < components.len()
        invariant
            i <= components@.len(),
            out@ == "    "@ + xdg_dir@ + "File = {\n"@ + components_blocks(
                components@.take(i as int),
            ),
        decreases components@.len() - i,
    {
        let block = render_component(components[i].0.as_str(), &components[i].1);
        proof {
            lemma_components_blocks_push(components@.take(i as int), components@[i as int]);
            assert(components@.take(i as int).push(components@[i as int]) =~= components@.take(
                i as int + 1,
            ));
        }
        out.append(block.as_str());
        i = i + 1;
    }
    proof {
        assert(components@.take(components@.len() as int) =~= components@);
    }
    out.append("    };\n");
    out
}

/// The fixed first lines of the output document.
pub open spec fn document_header() -> Seq<char> {
    "{ cosmicLib, ... }:\n{\n  wayland.desktopManager.cosmic = {\n    enable = true;\n"@
}

/// The fixed last lines of the output document.
pub open spec fn document_footer() -> Seq<char> {
    "  };\n}\n"@
}

/// The sections of a run of XDG directories, in order.
pub open spec fn sections_blocks(sections: Seq<(String, Vec<(String, ComponentData)>)>) -> Seq<char>
    decreases sections.len(),
{
    if sections.len() == 0 {
        Seq::empty()
    } else {
        section_block(sections[0].0@, sections[0].1@) + sections_blocks(sections.drop_first())
    }
}

proof fn lemma_sections_blocks_push(
    sections: Seq<(String, Vec<(String, ComponentData)>)>,
    s: (String, Vec<(String, ComponentData)>),
)
    ensures
        sections_blocks(sections.push(s)) == sections_blocks(sections) + section_block(
            s.0@,
            s.1@,
        ),
    decreases sections.len(),
{
    if sections.len() == 0 {
        assert(sections.push(s)[0] == s);
        assert(sections.push(s).drop_first() =~= Seq::<
            (String, Vec<(String, ComponentData)>),
        >::empty());
        assert(sections_blocks(Seq::<(String, Vec<(String, ComponentData)>)>::empty())
            == Seq::<char>::empty());
        assert(sections_blocks(sections.push(s)) =~= sections_blocks(sections) + section_block(
            s.0@,
            s.1@,
        ));
    } else {
        assert(sections.push(s)[0] == sections[0]);
        assert(sections.push(s).drop_first() =~= sections.drop_first().push(s));
        lemma_sections_blocks_push(sections.drop_first(), s);
        assert(sections_blocks(sections.push(s)) =~= sections_blocks(sections) + section_block(
            s.0@,
            s.1@,
        ));
    }
}

/// The whole output document for the collected sections.
pub open spec fn document(sections: Seq<(String, Vec<(String, ComponentData)>)>) -> Seq<char> {
    document_header() + sections_blocks(sections) + document_footer()
}

/// Renders the whole output document: the fixed header, one section per
/// XDG directory, and the fixed footer.
pub fn render_document(sections: &Vec<(String, Vec<(String, ComponentData)>)>) -> (r: String)
    ensures
        r@ == document(sections@),
{
    let mut out = String::from_str(
        "{ cosmicLib, ... }:\n{\n  wayland.desktopManager.cosmic = {\n    enable = true;\n",
    );
    let mut i: usize = 0;
    while i < sections.len()
        invariant
            i <= sections@.len(),
            out@ == document_header() + sections_blocks(sections@.take(i as int)),
        decreases sections@.len() - i,
    {
        let block = render_section(sections[i].0.as_str(), &sections[i].1);
        proof {
            lemma_sections_blocks_push(sections@.take(i as int), sections@[i as int]);
            assert(sections@.take(i as int).push(sections@[i as int]) =~= sections@.take(
                i as int + 1,
            ));
        }
        out.append(block.as_str());
        i = i + 1;
    }
    proof {
        assert(sections@.take(sections@.len() as int) =~= sections@);
    }
    out.append("  };\n}\n");
    proof {
        assert(out@ =~= document(sections@));
    }
    out
}

} // verus!
