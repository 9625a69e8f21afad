//! Comment extraction: parse a file with its language's grammar and run the
//! comment query over the whole tree.
use crate::input::{compiled_from, grammar_kind, query_source, FileType, Registry};
use crate::tags::{
    annotate_comments, annotate_spec, annotations_of, has_one_tag, lemma_one_tag_per_comment, lemma_scope_drops_unmodified, scoped, annotation_views, comment_views, string_views,
    AnnotationRecord, CommentRecord,
};
use std::collections::HashSet;
use tree_sitter::{Language, Parser, Query, QueryCursor};
use vstd::prelude::*;

verus! {

/// The nodes that tree-sitter captures in `text` parsed with the grammar of
/// `grammar` and a query compiled for that grammar from `query`, in the
/// order of the tree, as (first row, last row, text), rows counted from 0;
/// empty where no tree comes out.
pub uninterp spec fn captures_of(grammar: FileType, query: Seq<char>, text: Seq<char>) -> Seq<
    (usize, usize, Seq<char>),
>;

/// The comment nodes of `text` read as `t`.
pub open spec fn comment_nodes_of(t: FileType, text: Seq<char>) -> Seq<(usize, usize, Seq<char>)> {
    captures_of(t, query_source(t), text)
}

/// Captured nodes with their texts as views.
pub open spec fn node_views(nodes: Seq<(usize, usize, String)>) -> Seq<(usize, usize, Seq<char>)> {
    nodes.map_values(|n: (usize, usize, String)| (n.0, n.1, n.2@))
}

/// Relies on `tree_sitter::Parser::parse` and `QueryCursor::captures`: the
/// text is parsed with `language` (no timeout or cancellation is set, so
/// the tree depends on the grammar and the text alone) and `query` is run
/// over the whole tree. A grammar that the parser refuses leaves it without
/// a language, and `parse` then gives no tree.
#[verifier::external_body]
fn run_query(language: &Language, query: &Query, text: &str) -> (r: Vec<(usize, usize, String)>)
    requires
        compiled_from(*query).0 == grammar_kind(*language),
    ensures
        node_views(r@) == captures_of(grammar_kind(*language), compiled_from(*query).1, text@),
{
    let mut parser = Parser::new();
    let _ = parser.set_language(language);
    let Some(tree) = parser.parse(text, None) else { return Vec::new() };
    let (bytes, mut cursor) = (text.as_bytes(), QueryCursor::new());
    cursor.captures(query, tree.root_node(), bytes).map(|(m, i)| {
        let n = m.captures[i].node;
        (n.start_position().row, n.end_position().row, n.utf8_text(bytes).unwrap_or_default().into())
    }).collect()
}

/// A row counted from 0 as a line counted from 1 (the last row that `usize`
/// holds stays where it is).
pub open spec fn line_of_row(row: usize) -> usize {
    if row < usize::MAX {
        (row + 1) as usize
    } else {
        row
    }
}

fn row_to_line(row: usize) -> (r: usize)
    ensures
        r == line_of_row(row),
{
    if row < usize::MAX {
        row + 1
    } else {
        row
    }
}

/// The records made from captured nodes: one for one and in order, rows
/// counted from 0 made lines counted from 1.
pub open spec fn records_of(r: Seq<CommentRecord>, nodes: Seq<(usize, usize, Seq<char>)>) -> bool {
    &&& r.len() == nodes.len()
    &&& forall|k: int|
        0 <= k < r.len() ==> {
            &&& #[trigger] r[k].line == line_of_row(nodes[k].0)
            &&& r[k].end_line == line_of_row(nodes[k].1)
            &&& r[k].text@ == nodes[k].2
        }
}

/// The comments of `text` read as `t`, as (first line, text).
pub open spec fn comments_of(t: FileType, text: Seq<char>) -> Seq<(nat, Seq<char>)> {
    comment_nodes_of(t, text).map_values(
        |n: (usize, usize, Seq<char>)| (line_of_row(n.0) as nat, n.2),
    )
}

/// Turns captured comment nodes into comment records.
pub fn comment_records(captures: &Vec<(usize, usize, String)>) -> (r: Vec<CommentRecord>)
    ensures
        records_of(r@, node_views(captures@)),
{
    let mut out: Vec<CommentRecord> = Vec::new();
    let mut i: usize = 0;
    while i < captures.len()
        invariant
            i <= captures@.len(),
            out@.len() == i,
            forall|k: int|
                0 <= k < i ==> {
                    &&& #[trigger] out@[k].line == line_of_row(captures@[k].0)
                    &&& out@[k].end_line == line_of_row(captures@[k].1)
                    &&& out@[k].text@ == captures@[k].2@
                },
        decreases captures@.len() - i,
    {
        let c = &captures[i];
        out.push(
            CommentRecord {
                line: row_to_line(c.0),
                end_line: row_to_line(c.1),
                text: c.2.clone(),
            },
        );
        i += 1;
    }
    out
}

/// The comments of `text`, read as `file_type`, in the order of the tree.
/// A malformed file gives whatever comments its grammar still recognises.
pub fn extract_comments(registry: &Registry, file_type: FileType, text: &str) -> (r: Vec<
    CommentRecord,
>)
    requires
        registry.well_formed(),
    ensures
        records_of(r@, comment_nodes_of(file_type, text@)),
        comment_views(r@) == comments_of(file_type, text@),
{
    let g = registry.grammar(file_type);
    let nodes = run_query(&g.0, &g.1, text);
    let r = comment_records(&nodes);
    assert(comment_views(r@) =~= comments_of(file_type, text@));
    r
}

/// The whole pipeline on one file: extract its comments, match the tags,
/// and keep only the modified lines where `diff_only` asks for it.
pub fn find_annotations(
    registry: &Registry,
    path: &str,
    file_type: FileType,
    text: &str,
    tags: &Vec<String>,
    modified: &HashSet<usize>,
    diff_only: bool,
) -> (r: Vec<AnnotationRecord>)
    requires
        registry.well_formed(),
    ensures
        annotation_views(r@) == annotate_spec(
            path@,
            comments_of(file_type, text@),
            string_views(tags@),
            modified@,
            diff_only,
        ),
{
    let comments = extract_comments(registry, file_type, text);
    annotate_comments(path, &comments, tags, modified, diff_only)
}

/// Two runs of the pipeline on the same file text, tags and modified lines
/// give the same annotations.
pub proof fn lemma_pipeline_repeatable(
    path: Seq<char>,
    file_type: FileType,
    text: Seq<char>,
    tags: Seq<Seq<char>>,
    modified: Set<usize>,
    diff_only: bool,
    first: Seq<AnnotationRecord>,
    second: Seq<AnnotationRecord>,
)
    requires
        annotation_views(first) == annotate_spec(
            path,
            comments_of(file_type, text),
            tags,
            modified,
            diff_only,
        ),
        annotation_views(second) == annotate_spec(
            path,
            comments_of(file_type, text),
            tags,
            modified,
            diff_only,
        ),
    ensures
        annotation_views(first) == annotation_views(second),
{
}

/// When every comment of the file contains exactly one of the configured
/// tags, the pipeline without diff scoping gives exactly one annotation per
/// comment, in source order.
pub proof fn lemma_pipeline_one_tag_per_comment(
    path: Seq<char>,
    file_type: FileType,
    text: Seq<char>,
    tags: Seq<Seq<char>>,
    modified: Set<usize>,
)
    requires
        forall|i: int|
            0 <= i < comments_of(file_type, text).len() ==> has_one_tag(
                tags,
                #[trigger] comments_of(file_type, text)[i].1,
            ),
    ensures
        annotate_spec(path, comments_of(file_type, text), tags, modified, false).len()
            == comments_of(file_type, text).len(),
        forall|i: int|
            0 <= i < comments_of(file_type, text).len() ==> (#[trigger] annotate_spec(
                path,
                comments_of(file_type, text),
                tags,
                modified,
                false,
            )[i]).1 == comments_of(file_type, text)[i].0,
{
    let cs = comments_of(file_type, text);
    lemma_one_tag_per_comment(path, cs, tags);
    assert(scoped(annotations_of(path, cs, tags), modified, false)
        == annotations_of(path, cs, tags));
}

/// With diff scoping on, a file whose annotations all stand on lines outside
/// the modified set gives no annotation at all.
pub proof fn lemma_pipeline_unmodified_gives_none(
    path: Seq<char>,
    file_type: FileType,
    text: Seq<char>,
    tags: Seq<Seq<char>>,
    modified: Set<usize>,
)
    requires
        forall|k: int|
            0 <= k < annotations_of(path, comments_of(file_type, text), tags).len() ==> {
                let ann = #[trigger] annotations_of(path, comments_of(file_type, text), tags)[k];
                !(ann.1 <= usize::MAX && modified.contains(ann.1 as usize))
            },
    ensures
        annotate_spec(path, comments_of(file_type, text), tags, modified, true).len() == 0,
{
    lemma_scope_drops_unmodified(annotations_of(path, comments_of(file_type, text), tags), modified);
}

} // verus!
