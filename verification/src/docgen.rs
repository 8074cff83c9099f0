//! Documentation generation: Markdown and HTML pages describing a manifest.
use vstd::prelude::*;
use crate::manifest::{Manifest, Sink, Source, Transform};
use crate::text::{concat_all, has_prefix, has_substring, lemma_concat_all_step};

verus! {

/// Table row of a source.
pub open spec fn source_row(s: Source) -> Seq<char> {
    "| "@ + s.name@ + " | "@ + s.format@ + " | "@ + s.path@ + " |\n"@
}

/// Table row of a transform.
pub open spec fn transform_row(t: Transform) -> Seq<char> {
    "| "@ + t.name@ + " | "@ + t.input@ + " | "@ + t.operation@ + " |\n"@
}

/// Table row of a sink.
pub open spec fn sink_row(s: Sink) -> Seq<char> {
    "| "@ + s.name@ + " | "@ + s.format@ + " | "@ + s.path@ + " |\n"@
}

/// Flow-chart node of a source.
pub open spec fn source_flow(s: Source) -> Seq<char> {
    "    "@ + s.name@ + "[\"\u{1F4C1} "@ + s.name@ + "\"]\n"@
}

/// Flow-chart edge into a transform, labelled with its operation.
pub open spec fn transform_flow(t: Transform) -> Seq<char> {
    "    "@ + t.input@ + " --> |"@ + t.operation@ + "| "@ + t.name@ + "\n"@
}

/// Flow-chart edge into a sink.
pub open spec fn sink_flow(s: Sink) -> Seq<char> {
    "    "@ + s.input@ + " --> "@ + s.name@ + "[\"\u{1F4BE} "@ + s.name@ + "\"]\n"@
}

/// The Markdown page of a manifest: title, version, a table each of sources,
/// transforms and outputs, and a Mermaid flow chart of the data flow.
pub open spec fn markdown_doc(m: Manifest) -> Seq<char> {
    "# "@ + m.project.name@ + "\n\n"@ + "**Version:** "@ + m.project.version@ + "\n\n"@
        + "## Sources\n\n"@ + "| Name | Format | Path |\n"@ + "|------|--------|------|\n"@
        + concat_all(m.source@.map_values(|s: Source| source_row(s))) + "\n"@
        + "## Transforms\n\n"@ + "| Name | Input | Operation |\n"@
        + "|------|-------|----------|\n"@
        + concat_all(m.transform@.map_values(|t: Transform| transform_row(t))) + "\n"@
        + "## Outputs\n\n"@ + "| Name | Format | Path |\n"@ + "|------|--------|------|\n"@
        + concat_all(m.sink@.map_values(|s: Sink| sink_row(s))) + "\n"@ + "## Data Flow\n\n"@
        + "```mermaid\ngraph LR\n"@ + concat_all(m.source@.map_values(|s: Source| source_flow(s)))
        + concat_all(m.transform@.map_values(|t: Transform| transform_flow(t)))
        + concat_all(m.sink@.map_values(|s: Sink| sink_flow(s))) + "```\n"@
}

fn append_source_row(doc: &mut String, s: &Source)
    ensures
        final(doc)@ == old(doc)@ + source_row(*s),
{
    doc.append("| ");
    doc.append(s.name.as_str());
    doc.append(" | ");
    doc.append(s.format.as_str());
    doc.append(" | ");
    doc.append(s.path.as_str());
    doc.append(" |\n");
    assert(doc@ =~= old(doc)@ + source_row(*s));
}

fn append_transform_row(doc: &mut String, t: &Transform)
    ensures
        final(doc)@ == old(doc)@ + transform_row(*t),
{
    doc.append("| ");
    doc.append(t.name.as_str());
    doc.append(" | ");
    doc.append(t.input.as_str());
    doc.append(" | ");
    doc.append(t.operation.as_str());
    doc.append(" |\n");
    assert(doc@ =~= old(doc)@ + transform_row(*t));
}

fn append_sink_row(doc: &mut String, s: &Sink)
    ensures
        final(doc)@ == old(doc)@ + sink_row(*s),
{
    doc.append("| ");
    doc.append(s.name.as_str());
    doc.append(" | ");
    doc.append(s.format.as_str());
    doc.append(" | ");
    doc.append(s.path.as_str());
    doc.append(" |\n");
    assert(doc@ =~= old(doc)@ + sink_row(*s));
}

fn append_source_flow(doc: &mut String, s: &Source)
    ensures
        final(doc)@ == old(doc)@ + source_flow(*s),
{
    doc.append("    ");
    doc.append(s.name.as_str());
    doc.append("[\"\u{1F4C1} ");
    doc.append(s.name.as_str());
    doc.append("\"]\n");
    assert(doc@ =~= old(doc)@ + source_flow(*s));
}

fn append_transform_flow(doc: &mut String, t: &Transform)
    ensures
        final(doc)@ == old(doc)@ + transform_flow(*t),
{
    doc.append("    ");
    doc.append(t.input.as_str());
    doc.append(" --> |");
    doc.append(t.operation.as_str());
    doc.append("| ");
    doc.append(t.name.as_str());
    doc.append("\n");
    assert(doc@ =~= old(doc)@ + transform_flow(*t));
}

fn append_sink_flow(doc: &mut String, s: &Sink)
    ensures
        final(doc)@ == old(doc)@ + sink_flow(*s),
{
    doc.append("    ");
    doc.append(s.input.as_str());
    doc.append(" --> ");
    doc.append(s.name.as_str());
    doc.append("[\"\u{1F4BE} ");
    doc.append(s.name.as_str());
    doc.append("\"]\n");
    assert(doc@ =~= old(doc)@ + sink_flow(*s));
}

/// Generates the Markdown documentation of a manifest (see `markdown_doc`).
pub fn generate_markdown(manifest: &Manifest) -> (r: String)
    ensures
        r@ == markdown_doc(*manifest),
{
    let ghost m = *manifest;
    let mut doc = String::new();
    doc.append("# ");
    doc.append(manifest.project.name.as_str());
    doc.append("\n\n");
    doc.append("**Version:** ");
    doc.append(manifest.project.version.as_str());
    doc.append("\n\n");
    doc.append("## Sources\n\n");
    doc.append("| Name | Format | Path |\n");
    doc.append("|------|--------|------|\n");
    let ghost base = doc@;
    let ghost rows = m.source@.map_values(|s: Source| source_row(s));
    let mut i: usize = 0;
    while i < manifest.source.len()
        invariant
            m == *manifest,
            rows == m.source@.map_values(|s: Source| source_row(s)),
            i <= m.source@.len(),
            doc@ == base + concat_all(rows.take(i as int)),
        decreases m.source@.len() - i,
    {
        proof {
            lemma_concat_all_step(rows, i as int);
            crate::text::lemma_add_assoc(base, concat_all(rows.take(i as int)), rows[i as int]);
        }
        append_source_row(&mut doc, &manifest.source[i]);
        i = i + 1;
    }
    proof {
        assert(rows.take(rows.len() as int) =~= rows);
    }
    doc.append("\n");
    doc.append("## Transforms\n\n");
    doc.append("| Name | Input | Operation |\n");
    doc.append("|------|-------|----------|\n");
    let ghost base = doc@;
    let ghost rows = m.transform@.map_values(|t: Transform| transform_row(t));
    let mut i: usize = 0;
    while i < manifest.transform.len()
        invariant
            m == *manifest,
            rows == m.transform@.map_values(|t: Transform| transform_row(t)),
            i <= m.transform@.len(),
            doc@ == base + concat_all(rows.take(i as int)),
        decreases m.transform@.len() - i,
    {
        proof {
            lemma_concat_all_step(rows, i as int);
            crate::text::lemma_add_assoc(base, concat_all(rows.take(i as int)), rows[i as int]);
        }
        append_transform_row(&mut doc, &manifest.transform[i]);
        i = i + 1;
    }
    proof {
        assert(rows.take(rows.len() as int) =~= rows);
    }
    doc.append("\n");
    doc.append("## Outputs\n\n");
    doc.append("| Name | Format | Path |\n");
    doc.append("|------|--------|------|\n");
    let ghost base = doc@;
    let ghost rows = m.sink@.map_values(|s: Sink| sink_row(s));
    let mut i: usize = 0;
    while i < manifest.sink.len()
        invariant
            m == *manifest,
            rows == m.sink@.map_values(|s: Sink| sink_row(s)),
            i <= m.sink@.len(),
            doc@ == base + concat_all(rows.take(i as int)),
        decreases m.sink@.len() - i,
    {
        proof {
            lemma_concat_all_step(rows, i as int);
            crate::text::lemma_add_assoc(base, concat_all(rows.take(i as int)), rows[i as int]);
        }
        append_sink_row(&mut doc, &manifest.sink[i]);
        i = i + 1;
    }
    proof {
        assert(rows.take(rows.len() as int) =~= rows);
    }
    doc.append("\n");
    doc.append("## Data Flow\n\n");
    doc.append("```mermaid\ngraph LR\n");
    let ghost base = doc@;
    let ghost rows = m.source@.map_values(|s: Source| source_flow(s));
    let mut i: usize = 0;
    while i < manifest.source.len()
        invariant
            m == *manifest,
            rows == m.source@.map_values(|s: Source| source_flow(s)),
            i <= m.source@.len(),
            doc@ == base + concat_all(rows.take(i as int)),
        decreases m.source@.len() - i,
    {
        proof {
            lemma_concat_all_step(rows, i as int);
            crate::text::lemma_add_assoc(base, concat_all(rows.take(i as int)), rows[i as int]);
        }
        append_source_flow(&mut doc, &manifest.source[i]);
        i = i + 1;
    }
    proof {
        assert(rows.take(rows.len() as int) =~= rows);
    }
    let ghost base = doc@;
    let ghost rows = m.transform@.map_values(|t: Transform| transform_flow(t));
    let mut i: usize = 0;
    while i < manifest.transform.len()
        invariant
            m == *manifest,
            rows == m.transform@.map_values(|t: Transform| transform_flow(t)),
            i <= m.transform@.len(),
            doc@ == base + concat_all(rows.take(i as int)),
        decreases m.transform@.len() - i,
    {
        proof {
            lemma_concat_all_step(rows, i as int);
            crate::text::lemma_add_assoc(base, concat_all(rows.take(i as int)), rows[i as int]);
        }
        append_transform_flow(&mut doc, &manifest.transform[i]);
        i = i + 1;
    }
    proof {
        assert(rows.take(rows.len() as int) =~= rows);
    }
    let ghost base = doc@;
    let ghost rows = m.sink@.map_values(|s: Sink| sink_flow(s));
    let mut i: usize = 0;
    while i < manifest.sink.len()
        invariant
            m == *manifest,
            rows == m.sink@.map_values(|s: Sink| sink_flow(s)),
            i <= m.sink@.len(),
            doc@ == base + concat_all(rows.take(i as int)),
        decreases m.sink@.len() - i,
    {
        proof {
            lemma_concat_all_step(rows, i as int);
            crate::text::lemma_add_assoc(base, concat_all(rows.take(i as int)), rows[i as int]);
        }
        append_sink_flow(&mut doc, &manifest.sink[i]);
        i = i + 1;
    }
    proof {
        assert(rows.take(rows.len() as int) =~= rows);
    }
    doc.append("```\n");
    doc
}

/// The HTML page of a manifest: its Markdown page inside a styled `<pre>` block.
pub open spec fn html_doc(m: Manifest) -> Seq<char> {
    "<!DOCTYPE html>\n<html>\n<head>\n<title>"@ + m.project.name@ + HTML_MIDDLE@ + markdown_doc(m)
        + "</pre>\n</body>\n</html>"@
}

/// The part of the HTML page between the title's project name and the Markdown.
pub const HTML_MIDDLE: &'static str = " \u{2014} Pipeline Documentation</title>\n<style>\nbody { font-family: system-ui, sans-serif; max-width: 900px; margin: 2em auto; padding: 0 1em; }\ntable { border-collapse: collapse; width: 100%; }\nth, td { border: 1px solid #ddd; padding: 8px; text-align: left; }\nth { background: #f5f5f5; }\npre { background: #f8f8f8; padding: 1em; overflow-x: auto; }\n</style>\n</head>\n<body>\n<pre>";

/// Generates the HTML documentation of a manifest (see `html_doc`).
pub fn generate_html(manifest: &Manifest) -> (r: String)
    ensures
        r@ == html_doc(*manifest),
{
    let md = generate_markdown(manifest);
    let mut doc = String::from_str("<!DOCTYPE html>\n<html>\n<head>\n<title>");
    doc.append(manifest.project.name.as_str());
    doc.append(HTML_MIDDLE);
    doc.append(md.as_str());
    doc.append("</pre>\n</body>\n</html>");
    doc
}

} // verus!

verus! {

/// The HTML page opens with the doctype, is titled after the project, and
/// holds the Markdown documentation inside a `<pre>` block.
pub proof fn law_html_wraps_markdown(m: Manifest)
    ensures
        has_prefix(html_doc(m), "<!DOCTYPE html>"@),
        has_substring(
            html_doc(m),
            "<title>"@ + m.project.name@ + " \u{2014} Pipeline Documentation</title>"@,
        ),
        has_substring(html_doc(m), "<pre>"@ + markdown_doc(m) + "</pre>"@),
{
    let head = "<!DOCTYPE html>\n<html>\n<head>\n<title>"@;
    let name = m.project.name@;
    let md = markdown_doc(m);
    let tail = "</pre>\n</body>\n</html>"@;
    let title_end = " \u{2014} Pipeline Documentation</title>"@;
    let style = "\n<style>\nbody { font-family: system-ui, sans-serif; max-width: 900px; margin: 2em auto; padding: 0 1em; }\ntable { border-collapse: collapse; width: 100%; }\nth, td { border: 1px solid #ddd; padding: 8px; text-align: left; }\nth { background: #f5f5f5; }\npre { background: #f8f8f8; padding: 1em; overflow-x: auto; }\n</style>\n</head>\n<body>\n"@;
    reveal_strlit("<!DOCTYPE html>\n<html>\n<head>\n<title>");
    reveal_strlit("<!DOCTYPE html>");
    reveal_strlit("<title>");
    reveal_strlit("<pre>");
    reveal_strlit("</pre>");
    reveal_strlit("</pre>\n</body>\n</html>");
    reveal_strlit(" \u{2014} Pipeline Documentation</title>");
    reveal_strlit("\n<style>\nbody { font-family: system-ui, sans-serif; max-width: 900px; margin: 2em auto; padding: 0 1em; }\ntable { border-collapse: collapse; width: 100%; }\nth, td { border: 1px solid #ddd; padding: 8px; text-align: left; }\nth { background: #f5f5f5; }\npre { background: #f8f8f8; padding: 1em; overflow-x: auto; }\n</style>\n</head>\n<body>\n");
    reveal_strlit(" \u{2014} Pipeline Documentation</title>\n<style>\nbody { font-family: system-ui, sans-serif; max-width: 900px; margin: 2em auto; padding: 0 1em; }\ntable { border-collapse: collapse; width: 100%; }\nth, td { border: 1px solid #ddd; padding: 8px; text-align: left; }\nth { background: #f5f5f5; }\npre { background: #f8f8f8; padding: 1em; overflow-x: auto; }\n</style>\n</head>\n<body>\n<pre>");
    assert(HTML_MIDDLE@ =~= title_end + style + "<pre>"@);
    let h = html_doc(m);
    assert(h =~= head + name + title_end + style + "<pre>"@ + md + tail);
    assert(h.take(15) =~= "<!DOCTYPE html>"@);
    let i: int = head.len() - 7;
    let t = "<title>"@ + name + title_end;
    assert(h.subrange(i, i + t.len()) =~= t);
    let j: int = (head.len() + name.len() + title_end.len() + style.len()) as int;
    let p = "<pre>"@ + md + "</pre>"@;
    assert(h.subrange(j, j + p.len()) =~= p);
}

} // verus!
