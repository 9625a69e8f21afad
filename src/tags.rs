//! Tag matching and diff scoping of annotations.
use std::collections::HashSet;
use vstd::prelude::*;
use vstd::string::StringSliceAdditionalSpecFns;
use vstd::utf8::encode_utf8;
use crate::hunks::{bytes_at, lit_at};

verus! {

broadcast use vstd::std_specs::hash::group_hash_axioms;

/// One comment of a source file.
#[derive(Debug, Clone, PartialEq, Eq)]
pub struct CommentRecord {
    /// The first line of the comment, counted from 1.
    pub line: usize,
    /// The last line of the comment, counted from 1.
    pub end_line: usize,
    /// The comment's text, delimiters included.
    pub text: String,
}

/// One configured tag found in one comment.
#[derive(Debug, Clone, PartialEq, Eq)]
pub struct AnnotationRecord {
    pub path: String,
    /// The first line of the comment, counted from 1.
    pub line: usize,
    pub tag: String,
    pub comment: String,
}

impl View for CommentRecord {
    type V = (nat, Seq<char>);

    open spec fn view(&self) -> (nat, Seq<char>) {
        (self.line as nat, self.text@)
    }
}

impl View for AnnotationRecord {
    type V = (Seq<char>, nat, Seq<char>, Seq<char>);

    open spec fn view(&self) -> (Seq<char>, nat, Seq<char>, Seq<char>) {
        (self.path@, self.line as nat, self.tag@, self.comment@)
    }
}

/// What `str::to_lowercase` gives for `s`.
pub uninterp spec fn lower_of(s: Seq<char>) -> Seq<char>;

/// Relies on `str::to_lowercase`: the lower-case form of `s`, which depends on
/// the characters of `s` alone.
#[verifier::external_body]
fn lowercase(s: &str) -> (r: String)
    ensures
        r@ == lower_of(s@),
{
    s.to_lowercase()
}

/// True when `needle` stands somewhere in `hay`.
pub open spec fn occurs(needle: Seq<u8>, hay: Seq<u8>) -> bool {
    exists|i: int| bytes_at(hay, i, needle)
}

/// Case-insensitive containment: the lower-case tag stands in the lower-case
/// comment.
pub open spec fn tag_in_comment(tag: Seq<char>, comment: Seq<char>) -> bool {
    occurs(encode_utf8(lower_of(tag)), encode_utf8(lower_of(comment)))
}

/// The tags, in their configured order, that stand in `comment`.
pub open spec fn tag_hits(tags: Seq<Seq<char>>, comment: Seq<char>) -> Seq<Seq<char>>
    decreases tags.len(),
{
    if tags.len() == 0 {
        seq![]
    } else {
        tag_hits(tags.drop_last(), comment) + if tag_in_comment(tags.last(), comment) {
            seq![tags.last()]
        } else {
            seq![]
        }
    }
}

/// The annotations of one comment: one per tag that stands in it.
pub open spec fn comment_annotations(
    path: Seq<char>,
    comment: (nat, Seq<char>),
    tags: Seq<Seq<char>>,
) -> Seq<(Seq<char>, nat, Seq<char>, Seq<char>)> {
    tag_hits(tags, comment.1).map_values(|t: Seq<char>| (path, comment.0, t, comment.1))
}

/// The annotations of a sequence of comments, comments in order and within a
/// comment tags in order.
pub open spec fn annotations_of(
    path: Seq<char>,
    comments: Seq<(nat, Seq<char>)>,
    tags: Seq<Seq<char>>,
) -> Seq<(Seq<char>, nat, Seq<char>, Seq<char>)>
    decreases comments.len(),
{
    if comments.len() == 0 {
        seq![]
    } else {
        annotations_of(path, comments.drop_last(), tags) + comment_annotations(
            path,
            comments.last(),
            tags,
        )
    }
}

/// The annotations that diff scoping keeps: all of them when it is off,
/// else those on a modified line.
pub open spec fn scoped(
    anns: Seq<(Seq<char>, nat, Seq<char>, Seq<char>)>,
    modified: Set<usize>,
    enabled: bool,
) -> Seq<(Seq<char>, nat, Seq<char>, Seq<char>)>
    decreases anns.len(),
{
    if !enabled || anns.len() == 0 {
        anns
    } else {
        scoped(anns.drop_last(), modified, enabled) + if anns.last().1 <= usize::MAX
            && modified.contains(anns.last().1 as usize) {
            seq![anns.last()]
        } else {
            seq![]
        }
    }
}

/// Whether `needle` stands somewhere in `hay`.
fn occurs_in(hay: &[u8], needle: &[u8]) -> (r: bool)
    ensures
        r == occurs(needle@, hay@),
{
    if needle.len() > hay.len() {
        return false;
    }
    let last = hay.len() - needle.len();
    let mut i: usize = 0;
    loop
        invariant_except_break
            i <= last,
            last + needle@.len() == hay@.len(),
            forall|k: int| 0 <= k < i ==> !bytes_at(hay@, k, needle@),
        ensures
            forall|k: int| 0 <= k <= last ==> !bytes_at(hay@, k, needle@),
        decreases last - i,
    {
        if lit_at(hay, i, needle) {
            return true;
        }
        if i == last {
            break;
        }
        i += 1;
    }
    false
}

/// Whether a lower-case tag stands in a lower-case comment.
pub fn matches_folded(comment_lower: &str, tag_lower: &str) -> (r: bool)
    ensures
        r == occurs(encode_utf8(tag_lower@), encode_utf8(comment_lower@)),
{
    occurs_in(comment_lower.as_bytes(), tag_lower.as_bytes())
}

/// Whether `tag` stands in `comment`, ignoring case.
pub fn comment_has_tag(comment: &str, tag: &str) -> (r: bool)
    ensures
        r == tag_in_comment(tag@, comment@),
{
    let c = lowercase(comment);
    let t = lowercase(tag);
    matches_folded(c.as_str(), t.as_str())
}

/// The views of a sequence of comment records.
pub open spec fn comment_views(cs: Seq<CommentRecord>) -> Seq<(nat, Seq<char>)> {
    cs.map_values(|c: CommentRecord| c@)
}

/// The views of a sequence of annotation records.
pub open spec fn annotation_views(anns: Seq<AnnotationRecord>) -> Seq<
    (Seq<char>, nat, Seq<char>, Seq<char>),
> {
    anns.map_values(|a: AnnotationRecord| a@)
}

/// The views of a sequence of strings.
pub open spec fn string_views(ss: Seq<String>) -> Seq<Seq<char>> {
    ss.map_values(|t: String| t@)
}

/// Tag matching: for each comment in order, one annotation for each
/// configured tag, in the configured order, that the comment contains when
/// case is ignored.
pub fn match_tags(path: &str, comments: &Vec<CommentRecord>, tags: &Vec<String>) -> (r: Vec<
    AnnotationRecord,
>)
    ensures
        annotation_views(r@) == annotations_of(
            path@,
            comment_views(comments@),
            string_views(tags@),
        ),
{
    let ghost cv = comment_views(comments@);
    let ghost tv = string_views(tags@);
    let mut lowered: Vec<String> = Vec::new();
    let mut j: usize = 0;
    while j < tags.len()
        invariant
            j <= tags@.len(),
            lowered@.len() == j,
            forall|k: int| 0 <= k < j ==> #[trigger] lowered@[k]@ == lower_of(tags@[k]@),
        decreases tags@.len() - j,
    {
        lowered.push(lowercase(tags[j].as_str()));
        j += 1;
    }
    let mut out: Vec<AnnotationRecord> = Vec::new();
    let mut i: usize = 0;
    while i < comments.len()
        invariant
            i <= comments@.len(),
            cv == comment_views(comments@),
            tv == string_views(tags@),
            lowered@.len() == tags@.len(),
            forall|k: int| 0 <= k < tags@.len() ==> #[trigger] lowered@[k]@ == lower_of(tags@[k]@),
            annotation_views(out@) == annotations_of(path@, cv.take(i as int), tv),
        decreases comments@.len() - i,
    {
        let c = &comments[i];
        let lc = lowercase(c.text.as_str());
        let ghost base = annotation_views(out@);
        let mut j: usize = 0;
        assert(tv.take(0) =~= Seq::<Seq<char>>::empty());
        assert(comment_annotations(path@, cv[i as int], tv.take(0)) =~= seq![]);
        assert(base + comment_annotations(path@, cv[i as int], tv.take(0)) =~= base);
        while j < tags.len()
            invariant
                j <= tags@.len(),
                i < comments@.len(),
                c == comments@[i as int],
                lc@ == lower_of(c.text@),
                cv == comment_views(comments@),
                tv == string_views(tags@),
                lowered@.len() == tags@.len(),
                forall|k: int|
                    0 <= k < tags@.len() ==> #[trigger] lowered@[k]@ == lower_of(tags@[k]@),
                annotation_views(out@) == base + comment_annotations(
                    path@,
                    cv[i as int],
                    tv.take(j as int),
                ),
            decreases tags@.len() - j,
        {
            let hit = matches_folded(lc.as_str(), lowered[j].as_str());
            let ghost before = annotation_views(out@);
            assert(tv.take(j + 1).drop_last() =~= tv.take(j as int));
            assert(tv.take(j + 1).last() == tags@[j as int]@);
            assert(cv[i as int] == (c.line as nat, c.text@));
            if hit {
                let rec = AnnotationRecord {
                    path: path.to_owned(),
                    line: c.line,
                    tag: tags[j].clone(),
                    comment: c.text.clone(),
                };
                out.push(rec);
                assert(annotation_views(out@) =~= before.push(rec@));
                assert(comment_annotations(path@, cv[i as int], tv.take(j + 1)) =~= comment_annotations(
                    path@,
                    cv[i as int],
                    tv.take(j as int),
                ).push(rec@));
            } else {
                assert(comment_annotations(path@, cv[i as int], tv.take(j + 1)) =~= comment_annotations(
                    path@,
                    cv[i as int],
                    tv.take(j as int),
                ));
            }
            j += 1;
        }
        assert(tv.take(tags@.len() as int) =~= tv);
        assert(cv.take(i + 1).drop_last() =~= cv.take(i as int));
        assert(cv.take(i + 1).last() == cv[i as int]);
        i += 1;
    }
    assert(cv.take(comments@.len() as int) =~= cv);
    out
}

/// Diff scoping: with `enabled`, keeps the annotations whose line is in
/// `modified`, in order; otherwise keeps them all.
pub fn scope_to_modified(
    annotations: Vec<AnnotationRecord>,
    modified: &HashSet<usize>,
    enabled: bool,
) -> (r: Vec<AnnotationRecord>)
    ensures
        annotation_views(r@) == scoped(annotation_views(annotations@), modified@, enabled),
{
    if !enabled {
        return annotations;
    }
    let ghost av = annotation_views(annotations@);
    let mut out: Vec<AnnotationRecord> = Vec::new();
    let mut i: usize = 0;
    assert(av.take(0) =~= Seq::<(Seq<char>, nat, Seq<char>, Seq<char>)>::empty());
    assert(annotation_views(out@) =~= seq![]);
    while i < annotations.len()
        invariant
            i <= annotations@.len(),
            av == annotation_views(annotations@),
            annotation_views(out@) == scoped(av.take(i as int), modified@, true),
        decreases annotations@.len() - i,
    {
        let a = &annotations[i];
        let ghost before = annotation_views(out@);
        assert(av.take(i + 1).drop_last() =~= av.take(i as int));
        assert(av.take(i + 1).last() == a@);
        if modified.contains(&a.line) {
            let kept = AnnotationRecord {
                path: a.path.clone(),
                line: a.line,
                tag: a.tag.clone(),
                comment: a.comment.clone(),
            };
            out.push(kept);
            assert(annotation_views(out@) =~= before.push(a@));
        } else {
            assert(annotation_views(out@) =~= before);
        }
        i += 1;
    }
    assert(av.take(annotations@.len() as int) =~= av);
    out
}

proof fn lemma_no_hits(tags: Seq<Seq<char>>, c: Seq<char>)
    requires
        forall|k: int| 0 <= k < tags.len() ==> !tag_in_comment(#[trigger] tags[k], c),
    ensures
        tag_hits(tags, c) == Seq::<Seq<char>>::empty(),
    decreases tags.len(),
{
    if tags.len() > 0 {
        let p = tags.drop_last();
        assert forall|k: int| 0 <= k < p.len() implies !tag_in_comment(#[trigger] p[k], c) by {
            assert(p[k] == tags[k]);
        }
        lemma_no_hits(p, c);
        assert(tag_hits(tags, c) =~= Seq::<Seq<char>>::empty());
    }
}

proof fn lemma_single_hit(tags: Seq<Seq<char>>, c: Seq<char>, j: int)
    requires
        0 <= j < tags.len(),
        tag_in_comment(tags[j], c),
        forall|k: int| 0 <= k < tags.len() && k != j ==> !tag_in_comment(#[trigger] tags[k], c),
    ensures
        tag_hits(tags, c) == seq![tags[j]],
    decreases tags.len(),
{
    let p = tags.drop_last();
    if j == tags.len() - 1 {
        assert forall|k: int| 0 <= k < p.len() implies !tag_in_comment(#[trigger] p[k], c) by {
            assert(p[k] == tags[k]);
        }
        lemma_no_hits(p, c);
        assert(tag_hits(tags, c) =~= seq![tags[j]]);
    } else {
        assert forall|k: int| 0 <= k < p.len() && k != j implies !tag_in_comment(
            #[trigger] p[k],
            c,
        ) by {
            assert(p[k] == tags[k]);
        }
        assert(p[j] == tags[j]);
        lemma_single_hit(p, c, j);
        assert(!tag_in_comment(tags.last(), c));
        assert(tag_hits(tags, c) =~= seq![tags[j]]);
    }
}

/// Exactly one position of the tag list holds a tag that `c` contains.
pub open spec fn has_one_tag(tags: Seq<Seq<char>>, c: Seq<char>) -> bool {
    exists|j: int|
        0 <= j < tags.len() && #[trigger] tag_in_comment(tags[j], c) && forall|k: int|
            0 <= k < tags.len() && k != j ==> !tag_in_comment(#[trigger] tags[k], c)
}

/// When every comment contains exactly one of the configured tags (one
/// position of the tag list matches it), tag matching gives exactly one
/// annotation per comment, in the order of the comments.
pub proof fn lemma_one_tag_per_comment(
    path: Seq<char>,
    comments: Seq<(nat, Seq<char>)>,
    tags: Seq<Seq<char>>,
)
    requires
        forall|i: int| 0 <= i < comments.len() ==> has_one_tag(tags, #[trigger] comments[i].1),
    ensures
        annotations_of(path, comments, tags).len() == comments.len(),
        forall|i: int|
            0 <= i < comments.len() ==> {
                let a = #[trigger] annotations_of(path, comments, tags)[i];
                &&& a.0 == path
                &&& a.1 == comments[i].0
                &&& a.3 == comments[i].1
                &&& tag_in_comment(a.2, comments[i].1)
                &&& tags.contains(a.2)
            },
    decreases comments.len(),
{
    if comments.len() > 0 {
        let p = comments.drop_last();
        assert forall|i: int| 0 <= i < p.len() implies has_one_tag(tags, #[trigger] p[i].1) by {
            assert(p[i] == comments[i]);
        }
        lemma_one_tag_per_comment(path, p, tags);
        let last = comments.last();
        let n = comments.len() - 1;
        assert(comments[n] == last);
        let j = choose|j: int|
            0 <= j < tags.len() && #[trigger] tag_in_comment(tags[j], comments[n].1) && forall|
                k: int,
            | 0 <= k < tags.len() && k != j ==> !tag_in_comment(#[trigger] tags[k], comments[n].1);
        lemma_single_hit(tags, last.1, j);
        let rest = annotations_of(path, p, tags);
        let here = comment_annotations(path, last, tags);
        assert(here =~= seq![(path, last.0, tags[j], last.1)]);
        let all = annotations_of(path, comments, tags);
        assert(all == rest + here);
        assert forall|i: int| 0 <= i < comments.len() implies {
            let a = #[trigger] annotations_of(path, comments, tags)[i];
            &&& a.0 == path
            &&& a.1 == comments[i].0
            &&& a.3 == comments[i].1
            &&& tag_in_comment(a.2, comments[i].1)
            &&& tags.contains(a.2)
        } by {
            if i < n {
                assert(all[i] == rest[i]);
                assert(p[i] == comments[i]);
            } else {
                assert(all[i] == here[0]);
            }
        }
    }
}

proof fn lemma_two_hits(tags: Seq<Seq<char>>, c: Seq<char>, a: int, b: int)
    requires
        0 <= a < b < tags.len(),
        tag_in_comment(tags[a], c),
        tag_in_comment(tags[b], c),
        forall|k: int|
            0 <= k < tags.len() && k != a && k != b ==> !tag_in_comment(#[trigger] tags[k], c),
    ensures
        tag_hits(tags, c) == seq![tags[a], tags[b]],
    decreases tags.len(),
{
    let p = tags.drop_last();
    assert(p[a] == tags[a]);
    if b == tags.len() - 1 {
        assert forall|k: int| 0 <= k < p.len() && k != a implies !tag_in_comment(
            #[trigger] p[k],
            c,
        ) by {
            assert(p[k] == tags[k]);
        }
        lemma_single_hit(p, c, a);
        assert(tag_hits(tags, c) =~= seq![tags[a], tags[b]]);
    } else {
        assert(p[b] == tags[b]);
        assert forall|k: int| 0 <= k < p.len() && k != a && k != b implies !tag_in_comment(
            #[trigger] p[k],
            c,
        ) by {
            assert(p[k] == tags[k]);
        }
        lemma_two_hits(p, c, a, b);
        assert(!tag_in_comment(tags.last(), c));
        assert(tag_hits(tags, c) =~= seq![tags[a], tags[b]]);
    }
}

/// A comment that contains exactly two distinct configured tags gives
/// exactly two annotations, one for each tag, in the configured order.
pub proof fn lemma_two_tags_two_records(
    path: Seq<char>,
    comment: (nat, Seq<char>),
    tags: Seq<Seq<char>>,
    a: int,
    b: int,
)
    requires
        0 <= a < b < tags.len(),
        tags[a] != tags[b],
        tag_in_comment(tags[a], comment.1),
        tag_in_comment(tags[b], comment.1),
        forall|k: int|
            0 <= k < tags.len() && k != a && k != b ==> !tag_in_comment(
                #[trigger] tags[k],
                comment.1,
            ),
    ensures
        annotations_of(path, seq![comment], tags) == seq![
            (path, comment.0, tags[a], comment.1),
            (path, comment.0, tags[b], comment.1),
        ],
{
    let one = seq![comment];
    assert(one.drop_last() =~= Seq::<(nat, Seq<char>)>::empty());
    assert(one.last() == comment);
    assert(annotations_of(path, one.drop_last(), tags) =~= seq![]);
    lemma_two_hits(tags, comment.1, a, b);
    assert(annotations_of(path, one, tags) =~= seq![
        (path, comment.0, tags[a], comment.1),
        (path, comment.0, tags[b], comment.1),
    ]);
}

/// With diff scoping on, annotations none of which stands on a modified line
/// give no annotation at all.
pub proof fn lemma_scope_drops_unmodified(
    anns: Seq<(Seq<char>, nat, Seq<char>, Seq<char>)>,
    modified: Set<usize>,
)
    requires
        forall|k: int|
            0 <= k < anns.len() ==> !(anns[k].1 <= usize::MAX && modified.contains(
                #[trigger] anns[k].1 as usize,
            )),
    ensures
        scoped(anns, modified, true) == Seq::<(Seq<char>, nat, Seq<char>, Seq<char>)>::empty(),
    decreases anns.len(),
{
    if anns.len() > 0 {
        let p = anns.drop_last();
        assert forall|k: int| 0 <= k < p.len() implies !(p[k].1 <= usize::MAX && modified.contains(
            #[trigger] p[k].1 as usize,
        )) by {
            assert(p[k] == anns[k]);
        }
        lemma_scope_drops_unmodified(p, modified);
        assert(anns.last() == anns[anns.len() - 1]);
        assert(scoped(anns, modified, true) =~= Seq::<
            (Seq<char>, nat, Seq<char>, Seq<char>),
        >::empty());
    }
}

/// The annotations of a file's comments, scoped to the modified lines where
/// `diff_only` asks for it.
pub open spec fn annotate_spec(
    path: Seq<char>,
    comments: Seq<(nat, Seq<char>)>,
    tags: Seq<Seq<char>>,
    modified: Set<usize>,
    diff_only: bool,
) -> Seq<(Seq<char>, nat, Seq<char>, Seq<char>)> {
    scoped(annotations_of(path, comments, tags), modified, diff_only)
}

/// Tag matching followed by diff scoping, on the comments of one file.
pub fn annotate_comments(
    path: &str,
    comments: &Vec<CommentRecord>,
    tags: &Vec<String>,
    modified: &HashSet<usize>,
    diff_only: bool,
) -> (r: Vec<AnnotationRecord>)
    ensures
        annotation_views(r@) == annotate_spec(
            path@,
            comment_views(comments@),
            string_views(tags@),
            modified@,
            diff_only,
        ),
{
    let found = match_tags(path, comments, tags);
    scope_to_modified(found, modified, diff_only)
}

/// Scoping is idempotent: scoping what scoping kept, against the same lines,
/// keeps all of it.
pub proof fn lemma_scope_idempotent(
    anns: Seq<(Seq<char>, nat, Seq<char>, Seq<char>)>,
    modified: Set<usize>,
    enabled: bool,
)
    ensures
        scoped(scoped(anns, modified, enabled), modified, enabled) == scoped(
            anns,
            modified,
            enabled,
        ),
    decreases anns.len(),
{
    if enabled && anns.len() > 0 {
        let p = anns.drop_last();
        lemma_scope_idempotent(p, modified, enabled);
        let once = scoped(anns, modified, enabled);
        let sp = scoped(p, modified, enabled);
        let keep = anns.last().1 <= usize::MAX && modified.contains(anns.last().1 as usize);
        if keep {
            assert(once == sp.push(anns.last()));
            assert(once.drop_last() =~= sp);
            assert(scoped(once, modified, enabled) =~= once);
        } else {
            assert(once =~= sp);
        }
    }
}

} // verus!
