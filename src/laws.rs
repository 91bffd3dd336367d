use crate::document::{boundaries_of, Document, Span, Tag, TextRange, SPAN_MAX};
use crate::edit::{edit_view, EditKind, EditView};
use crate::error::RewriterError;
use crate::events::is_event_name;
use crate::plan::{base_before, has_base_href, attrs_steps, chain, keys_valid, rule_step, script_steps, style_steps, step_ok, attr_value, base_steps, event_step, first_head, head_step, meta_steps, plan_of, tag_steps, tags_steps, Step};
use crate::rules::RewriteRule;
use crate::text::ascii_lower;
use crate::visitor::{assemble, lemma_spans_within_concat, lemma_step_edits_within, spans_within, step_edits};
use vstd::prelude::*;

verus! {

/// A pass is a function of its inputs: the same document, rules and kind of
/// pass give the same steps, and the same answers to those steps give the
/// same edits.
pub proof fn law_deterministic<F>(
    doc: Document,
    rules: Seq<RewriteRule<F>>,
    from_top: bool,
    rs: Seq<Option<Seq<char>>>,
    e1: Seq<EditView>,
    e2: Seq<EditView>,
)
    requires
        plan_of(doc, rules, from_top) is Ok,
        assemble(doc, plan_of(doc, rules, from_top)->Ok_0, rs, rs.len() as int) == Ok::<Seq<EditView>, RewriterError>(e1),
        assemble(doc, plan_of(doc, rules, from_top)->Ok_0, rs, rs.len() as int) == Ok::<Seq<EditView>, RewriterError>(e2),
    ensures
        e1 == e2,
{
}

/// An attribute whose name is an event-handler name and whose value is
/// non-empty text gets exactly one step, and that step makes exactly one
/// value replacement and one marker recording the untransformed code, both on
/// the value's span.
pub proof fn law_event_attribute(doc: Document, t: Tag, i: int, answer: Seq<char>)
    requires
        0 <= i < t.attributes@.len(),
        t.attributes@[i].value is Some,
        is_event_name(doc.text(t.attributes@[i].key)),
        t.attributes@[i].value->Some_0.start < t.attributes@[i].value->Some_0.end,
        t.attributes@[i].value->Some_0.end <= SPAN_MAX,
        doc.valid(t.attributes@[i].value->Some_0),
    ensures
        ({
            let a = t.attributes@[i];
            let v = a.value->Some_0;
            let span = Span::of(v.start as int, v.end as int);
            let step = Step::EventAttr { attr: a.key, code: v, span };
            &&& event_step(doc, t, i) == Ok::<Seq<Step>, RewriterError>(seq![step])
            &&& step_edits(doc, step, Some(answer)) == Ok::<Seq<EditView>, RewriterError>(
                seq![
                    edit_view(EditKind::ReplaceAttr, span, Seq::empty(), answer),
                    edit_view(EditKind::AddMarkerAttr, span, doc.text(a.key), doc.text(v)),
                ],
            )
        }),
{
}

/// A `meta` tag whose `http-equiv` is `content-security-policy` in any
/// letter case yields exactly one step, removing the whole tag.
pub proof fn law_csp_meta(doc: Document, t: Tag)
    requires
        doc.valid(t.name),
        doc.text(t.name) == "meta"@,
        attr_value(doc, t, "http-equiv"@) is Some,
        attr_value(doc, t, "http-equiv"@)->Some_0 is Some,
        doc.valid(attr_value(doc, t, "http-equiv"@)->Some_0->Some_0),
        ascii_lower(doc.text(attr_value(doc, t, "http-equiv"@)->Some_0->Some_0)) == "content-security-policy"@,
        t.start <= SPAN_MAX,
        t.end < SPAN_MAX,
    ensures
        meta_steps(doc, t, doc.text(t.name)) == Ok::<Seq<Step>, RewriterError>(
            seq![Step::RemoveNode { span: Span::of(t.start as int, t.end + 1) }],
        ),
        step_edits(doc, Step::RemoveNode { span: Span::of(t.start as int, t.end + 1) }, None) == Ok::<
            Seq<EditView>,
            RewriterError,
        >(seq![edit_view(EditKind::RemoveNode, Span::of(t.start as int, t.end + 1), Seq::empty(), Seq::empty())]),
{
    assert(boundaries_of(t) == Ok::<Span, RewriterError>(Span::of(t.start as int, t.end + 1)));
}

/// A rule's replacement of a module script's `src` carries the module
/// query marker; any other replacement is kept as the rule gave it.
pub proof fn law_module_src(doc: Document, rule: usize, value: TextRange, value_span: Span, remove_span: Span, module: bool, answer: Seq<char>)
    ensures
        step_edits(doc, Step::Rule { rule, value, value_span, remove_span, module }, Some(answer)) == Ok::<
            Seq<EditView>,
            RewriterError,
        >(
            seq![
                edit_view(
                    EditKind::ReplaceAttr,
                    value_span,
                    Seq::empty(),
                    if module { answer + "?type=module"@ } else { answer },
                ),
            ],
        ),
{
}

proof fn lemma_tags_prefix<F>(doc: Document, rules: Seq<RewriteRule<F>>, n: int, m: int)
    requires
        0 <= n <= m,
        tags_steps(doc, rules, m) is Ok,
    ensures
        tags_steps(doc, rules, n) is Ok,
        tags_steps(doc, rules, n)->Ok_0.len() <= tags_steps(doc, rules, m)->Ok_0.len(),
        tags_steps(doc, rules, m)->Ok_0.subrange(0, tags_steps(doc, rules, n)->Ok_0.len() as int)
            == tags_steps(doc, rules, n)->Ok_0,
    decreases m - n,
{
    if n < m {
        lemma_tags_prefix(doc, rules, n, m - 1);
        let a = tags_steps(doc, rules, m - 1)->Ok_0;
        let b = tags_steps(doc, rules, n)->Ok_0;
        let c = tags_steps(doc, rules, m)->Ok_0;
        assert(c.subrange(0, a.len() as int) == a);
        assert(c.subrange(0, b.len() as int) =~= a.subrange(0, b.len() as int));
    }
}

/// The base URL of a `base` tag with an `href` is sent before anything that
/// any later tag asks: its step is the first of that tag's steps, and every
/// step of a later tag comes after it.
pub proof fn law_base_first<F>(doc: Document, rules: Seq<RewriteRule<F>>, i: int, m: int, href: TextRange)
    requires
        0 <= i < m <= doc.tags@.len(),
        tags_steps(doc, rules, m) is Ok,
        doc.valid(doc.tags@[i].name),
        base_steps(doc, doc.tags@[i], doc.text(doc.tags@[i].name), base_before(doc, i)) == Ok::<Seq<Step>, RewriterError>(
            seq![Step::SetMetaBase { href }],
        ),
    ensures
        ({
            let all = tags_steps(doc, rules, m)->Ok_0;
            let p = tags_steps(doc, rules, i)->Ok_0.len();
            &&& p < tags_steps(doc, rules, i + 1)->Ok_0.len()
            &&& all[p as int] == Step::SetMetaBase { href }
            &&& all.subrange(0, tags_steps(doc, rules, i + 1)->Ok_0.len() as int) == tags_steps(doc, rules, i + 1)->Ok_0
        }),
{
    lemma_tags_prefix(doc, rules, i + 1, m);
    let t = doc.tags@[i];
    let pre = tags_steps(doc, rules, i)->Ok_0;
    let mine = tag_steps(doc, rules, t, base_before(doc, i))->Ok_0;
    let upto = tags_steps(doc, rules, i + 1)->Ok_0;
    assert(upto == pre + mine);
    assert(mine[0] == Step::SetMetaBase { href });
    assert(upto[pre.len() as int] == Step::SetMetaBase { href });
    let all = tags_steps(doc, rules, m)->Ok_0;
    assert(all[pre.len() as int] == all.subrange(0, upto.len() as int)[pre.len() as int]);
}

/// Only the first `base` tag with an `href` is sent: a later one, of any
/// kind, plans no base step, and the first one that has a text `href` plans
/// exactly its own.
pub proof fn law_base_once(doc: Document, i: int, name: Seq<char>)
    requires
        0 <= i < doc.tags@.len(),
    ensures
        base_before(doc, i) ==> base_steps(doc, doc.tags@[i], name, base_before(doc, i)) == Ok::<
            Seq<Step>,
            RewriterError,
        >(Seq::empty()),
        !base_before(doc, i) && has_base_href(doc, doc.tags@[i]) && doc.valid(
            attr_value(doc, doc.tags@[i], "href"@)->Some_0->Some_0,
        ) ==> base_steps(doc, doc.tags@[i], doc.text(doc.tags@[i].name), base_before(doc, i)) == Ok::<
            Seq<Step>,
            RewriterError,
        >(seq![Step::SetMetaBase { href: attr_value(doc, doc.tags@[i], "href"@)->Some_0->Some_0 }]),
{
}

/// On a top-level pass the bootstrap step comes last: at offset 0 where the
/// document has no `head`, else zero-width just inside the first `head`.
pub proof fn law_head_injection<F>(doc: Document, rules: Seq<RewriteRule<F>>)
    requires
        plan_of(doc, rules, true) is Ok,
    ensures
        ({
            let steps = plan_of(doc, rules, true)->Ok_0;
            &&& steps.len() > 0
            &&& first_head(doc, doc.tags@.len() as int) is None ==> steps.last() == Step::Bootstrap {
                found_head: false,
                span: Span { start: 0, end: 0 },
            }
            &&& first_head(doc, doc.tags@.len() as int) is Some ==> steps.last() == Step::Bootstrap {
                found_head: true,
                span: Span::of(
                    doc.tags@[first_head(doc, doc.tags@.len() as int)->Some_0].inner.start as int,
                    doc.tags@[first_head(doc, doc.tags@.len() as int)->Some_0].inner.start as int,
                ),
            }
        }),
{
    let a = tags_steps(doc, rules, doc.tags@.len() as int)->Ok_0;
    let b = head_step(doc)->Ok_0;
    assert(plan_of(doc, rules, true)->Ok_0 == a + b);
}

/// Every edit a pass makes from well-formed steps has its span inside the
/// source buffer, start before end: the bytes outside the spans, which
/// are copied unchanged, are well defined.
pub proof fn law_edit_spans_within(doc: Document, steps: Seq<Step>, rs: Seq<Option<Seq<char>>>, n: int)
    requires
        0 <= n <= steps.len(),
        forall|k: int| 0 <= k < steps.len() ==> step_ok(doc, #[trigger] steps[k]),
    ensures
        assemble(doc, steps, rs, n) is Ok ==> spans_within(doc, assemble(doc, steps, rs, n)->Ok_0),
    decreases n,
{
    if n > 0 {
        law_edit_spans_within(doc, steps, rs, n - 1);
        lemma_step_edits_within(doc, steps[n - 1], rs[n - 1]);
        if assemble(doc, steps, rs, n) is Ok {
            lemma_spans_within_concat(
                doc,
                assemble(doc, steps, rs, n - 1)->Ok_0,
                step_edits(doc, steps[n - 1], rs[n - 1])->Ok_0,
            );
        }
    }
}

/// No step of a list is a bootstrap step.
pub open spec fn no_bootstrap(s: Seq<Step>) -> bool {
    forall|k: int| 0 <= k < s.len() ==> !(#[trigger] s[k] is Bootstrap)
}

proof fn lemma_no_bootstrap_concat(a: Seq<Step>, b: Seq<Step>)
    requires
        no_bootstrap(a),
        no_bootstrap(b),
    ensures
        no_bootstrap(a + b),
{
    assert forall|k: int| 0 <= k < (a + b).len() implies !(#[trigger] (a + b)[k] is Bootstrap) by {
        if k < a.len() {
            assert((a + b)[k] == a[k]);
        } else {
            assert((a + b)[k] == b[k - a.len()]);
        }
    }
}

proof fn lemma_chain_no_bootstrap(a: Result<Seq<Step>, RewriterError>, b: Result<Seq<Step>, RewriterError>)
    requires
        a is Ok ==> no_bootstrap(a->Ok_0),
        b is Ok ==> no_bootstrap(b->Ok_0),
    ensures
        chain(a, b) is Ok ==> no_bootstrap(chain(a, b)->Ok_0),
{
    if a is Ok && b is Ok {
        lemma_no_bootstrap_concat(a->Ok_0, b->Ok_0);
    }
}

proof fn lemma_attrs_no_bootstrap<F>(doc: Document, rules: Seq<RewriteRule<F>>, t: Tag, name: Seq<char>, n: int)
    ensures
        attrs_steps(doc, rules, t, name, n) is Ok ==> no_bootstrap(attrs_steps(doc, rules, t, name, n)->Ok_0),
    decreases n,
{
    if n > 0 {
        lemma_attrs_no_bootstrap(doc, rules, t, name, n - 1);
        let r = rule_step(doc, rules, t, name, n - 1);
        let e = event_step(doc, t, n - 1);
        assert(r is Ok ==> no_bootstrap(r->Ok_0));
        assert(e is Ok ==> no_bootstrap(e->Ok_0));
        lemma_chain_no_bootstrap(r, e);
        lemma_chain_no_bootstrap(attrs_steps(doc, rules, t, name, n - 1), chain(r, e));
    }
}

proof fn lemma_tags_no_bootstrap<F>(doc: Document, rules: Seq<RewriteRule<F>>, n: int)
    ensures
        tags_steps(doc, rules, n) is Ok ==> no_bootstrap(tags_steps(doc, rules, n)->Ok_0),
    decreases n,
{
    if n > 0 {
        lemma_tags_no_bootstrap(doc, rules, n - 1);
        let t = doc.tags@[n - 1];
        if doc.valid(t.name) && keys_valid(doc, t) {
            let name = doc.text(t.name);
            let b = base_steps(doc, t, name, base_before(doc, n - 1));
            let st = style_steps(doc, t, name);
            let sc = script_steps(doc, t, name);
            let m = meta_steps(doc, t, name);
            lemma_attrs_no_bootstrap(doc, rules, t, name, t.attributes@.len() as int);
            assert(b is Ok ==> no_bootstrap(b->Ok_0));
            assert(st is Ok ==> no_bootstrap(st->Ok_0));
            assert(sc is Ok ==> no_bootstrap(sc->Ok_0));
            assert(m is Ok ==> no_bootstrap(m->Ok_0));
            lemma_chain_no_bootstrap(sc, m);
            lemma_chain_no_bootstrap(st, chain(sc, m));
            let a = attrs_steps(doc, rules, t, name, t.attributes@.len() as int);
            lemma_chain_no_bootstrap(a, chain(st, chain(sc, m)));
            lemma_chain_no_bootstrap(b, chain(a, chain(st, chain(sc, m))));
        }
        lemma_chain_no_bootstrap(tags_steps(doc, rules, n - 1), tag_steps(doc, rules, t, base_before(doc, n - 1)));
    }
}

/// A top-level pass has exactly one bootstrap step, its last; a nested pass
/// has none.
pub proof fn law_one_bootstrap<F>(doc: Document, rules: Seq<RewriteRule<F>>)
    ensures
        plan_of(doc, rules, true) is Ok ==> no_bootstrap(plan_of(doc, rules, true)->Ok_0.drop_last()),
        plan_of(doc, rules, false) is Ok ==> no_bootstrap(plan_of(doc, rules, false)->Ok_0),
{
    lemma_tags_no_bootstrap(doc, rules, doc.tags@.len() as int);
    if plan_of(doc, rules, true) is Ok {
        let a = tags_steps(doc, rules, doc.tags@.len() as int)->Ok_0;
        let b = head_step(doc)->Ok_0;
        assert((a + b).drop_last() =~= a);
    }
}

/// No edit of a list inserts text.
pub open spec fn no_insert(edits: Seq<EditView>) -> bool {
    forall|k: int| 0 <= k < edits.len() ==> (#[trigger] edits[k]).kind != EditKind::InsertText
}

proof fn lemma_assemble_no_insert(doc: Document, steps: Seq<Step>, rs: Seq<Option<Seq<char>>>, n: int)
    requires
        0 <= n <= steps.len(),
        forall|k: int| 0 <= k < n ==> !(#[trigger] steps[k] is Bootstrap),
    ensures
        assemble(doc, steps, rs, n) is Ok ==> no_insert(assemble(doc, steps, rs, n)->Ok_0),
    decreases n,
{
    if n > 0 {
        lemma_assemble_no_insert(doc, steps, rs, n - 1);
        if assemble(doc, steps, rs, n) is Ok {
            let a = assemble(doc, steps, rs, n - 1)->Ok_0;
            let b = step_edits(doc, steps[n - 1], rs[n - 1])->Ok_0;
            assert(!(steps[n - 1] is Bootstrap));
            assert(no_insert(b));
            assert forall|k: int| 0 <= k < (a + b).len() implies (#[trigger] (a + b)[k]).kind != EditKind::InsertText by {
                if k < a.len() {
                    assert((a + b)[k] == a[k]);
                } else {
                    assert((a + b)[k] == b[k - a.len()]);
                }
            }
        }
    }
}

/// Over the edits of a whole pass: a top-level pass inserts text exactly
/// once, as its last edit, at the bootstrap step's span (zero-width just
/// inside the first `head`, or at offset 0); a nested pass inserts none.
pub proof fn law_insert_text_edits<F>(
    doc: Document,
    rules: Seq<RewriteRule<F>>,
    from_top: bool,
    rs: Seq<Option<Seq<char>>>,
    edits: Seq<EditView>,
)
    requires
        plan_of(doc, rules, from_top) is Ok,
        rs.len() == plan_of(doc, rules, from_top)->Ok_0.len(),
        assemble(doc, plan_of(doc, rules, from_top)->Ok_0, rs, rs.len() as int) == Ok::<Seq<EditView>, RewriterError>(edits),
    ensures
        !from_top ==> no_insert(edits),
        from_top ==> edits.len() > 0 && no_insert(edits.drop_last()) && edits.last().kind == EditKind::InsertText,
        from_top && first_head(doc, doc.tags@.len() as int) is None ==> edits.last().span == (Span { start: 0, end: 0 }),
        from_top && first_head(doc, doc.tags@.len() as int) is Some ==> edits.last().span == Span::of(
            doc.tags@[first_head(doc, doc.tags@.len() as int)->Some_0].inner.start as int,
            doc.tags@[first_head(doc, doc.tags@.len() as int)->Some_0].inner.start as int,
        ),
{
    let steps = plan_of(doc, rules, from_top)->Ok_0;
    let n = steps.len() as int;
    law_one_bootstrap(doc, rules);
    if !from_top {
        assert forall|k: int| 0 <= k < n implies !(#[trigger] steps[k] is Bootstrap) by {
            assert(!(steps[k] is Bootstrap));
        }
        lemma_assemble_no_insert(doc, steps, rs, n);
    } else {
        law_head_injection(doc, rules);
        let pre = steps.drop_last();
        assert forall|k: int| 0 <= k < n - 1 implies !(#[trigger] steps[k] is Bootstrap) by {
            assert(steps[k] == pre[k]);
            assert(!(pre[k] is Bootstrap));
        }
        lemma_assemble_no_insert(doc, steps, rs, n - 1);
        let a = assemble(doc, steps, rs, n - 1)->Ok_0;
        let b = step_edits(doc, steps[n - 1], rs[n - 1])->Ok_0;
        assert(edits == a + b);
        assert(b.len() == 1);
        assert(edits.drop_last() =~= a);
        assert(edits.last() == b[0]);
    }
}

} // verus!
