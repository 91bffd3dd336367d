use crate::document::{span_within, Document};
use crate::edit::{edit_view, edits_view, Edit, EditKind, EditView};
use crate::error::RewriterError;
use crate::plan::{all_wf, plan, plan_of, step_ok, step_wf, Step};
use crate::rules::{RewriteRule, RewriteRuleCallback};
use vstd::prelude::*;
use vstd::string::*;

verus! {

/// A request to the external tool.
#[derive(Clone, Debug)]
pub enum VisitorExternalTool {
    /// The document's base URL; nothing need come back.
    SetMetaBase(String),
    /// Base64-encode this code.
    Base64(String),
    /// Rewrite an inline script.
    RewriteInlineScript { code: String, module: bool },
    /// Rewrite the code of event-handler attribute `attr`.
    RewriteJsAttr { attr: String, code: String },
    /// Rewrite the content of a refresh meta tag.
    RewriteHttpEquivContent(String),
    /// Rewrite a style sheet.
    RewriteCss(String),
    /// The bootstrap text to insert into the document.
    GetScriptText { found_head: bool },
    /// A message to log; nothing need come back.
    Log(String),
}

/// The external tool: answers a request with text, with nothing, or fails
/// with a message.
pub trait VisitorExternalToolCallback {
    fn call(&self, tool: VisitorExternalTool) -> Result<Option<String>, String>;
}

/// Name of the marker attribute that records an inline script's source.
pub const SCRIPT_SOURCE_ATTR: &'static str = "script-source-src";

/// Query marker appended to a rewritten module script's `src`.
pub const MODULE_SUFFIX: &'static str = "?type=module";

/// Whether `req` is the request a step makes of the external tool. A rule
/// step asks its rule instead, and a node removal asks nothing.
pub open spec fn tool_request(doc: Document, step: Step, req: VisitorExternalTool) -> bool {
    match step {
        Step::SetMetaBase { href } => req matches VisitorExternalTool::SetMetaBase(h) && h@ == doc.text(href),
        Step::EventAttr { attr, code, .. } => req matches VisitorExternalTool::RewriteJsAttr { attr: a, code: c }
            && a@ == doc.text(attr) && c@ == doc.text(code),
        Step::ScriptSource { code, .. } => req matches VisitorExternalTool::Base64(c) && c@ == doc.text(code),
        Step::ScriptCode { code, module, .. } => req matches VisitorExternalTool::RewriteInlineScript {
            code: c,
            module: m,
        } && c@ == doc.text(code) && m == module,
        Step::Css { text, .. } => req matches VisitorExternalTool::RewriteCss(c) && c@ == doc.text(text),
        Step::Refresh { content, .. } => req matches VisitorExternalTool::RewriteHttpEquivContent(c) && c@
            == doc.text(content),
        Step::Bootstrap { found_head, .. } => req matches VisitorExternalTool::GetScriptText { found_head: f }
            && f == found_head,
        _ => false,
    }
}

/// A required answer that is there.
pub open spec fn required(resp: Option<Seq<char>>) -> Result<Seq<char>, RewriterError> {
    match resp {
        Some(s) => Ok(s),
        None => Err(RewriterError::ExternalToolEmpty),
    }
}

/// The edits a step makes from the answer it got.
pub open spec fn step_edits(doc: Document, step: Step, resp: Option<Seq<char>>) -> Result<Seq<EditView>, RewriterError> {
    let e = Seq::<char>::empty();
    match step {
        Step::SetMetaBase { .. } => Ok(Seq::empty()),
        Step::Rule { value_span, remove_span, module, .. } => match resp {
            Some(v) => Ok(
                seq![edit_view(EditKind::ReplaceAttr, value_span, e, if module { v + MODULE_SUFFIX@ } else { v })],
            ),
            None => Ok(seq![edit_view(EditKind::RemoveAttr, remove_span, e, e)]),
        },
        Step::EventAttr { attr, code, span } => match required(resp) {
            Ok(r) => Ok(
                seq![
                    edit_view(EditKind::ReplaceAttr, span, e, r),
                    edit_view(EditKind::AddMarkerAttr, span, doc.text(attr), doc.text(code)),
                ],
            ),
            Err(x) => Err(x),
        },
        Step::ScriptSource { marker_span, .. } => match required(resp) {
            Ok(r) => Ok(seq![edit_view(EditKind::AddMarkerAttr, marker_span, SCRIPT_SOURCE_ATTR@, r)]),
            Err(x) => Err(x),
        },
        Step::ScriptCode { span, .. } => match required(resp) {
            Ok(r) => Ok(seq![edit_view(EditKind::Replace, span, e, r)]),
            Err(x) => Err(x),
        },
        Step::Css { span, .. } => match required(resp) {
            Ok(r) => Ok(seq![edit_view(EditKind::Replace, span, e, r)]),
            Err(x) => Err(x),
        },
        Step::Refresh { span, .. } => match required(resp) {
            Ok(r) => Ok(seq![edit_view(EditKind::ReplaceAttr, span, e, r)]),
            Err(x) => Err(x),
        },
        Step::RemoveNode { span } => Ok(seq![edit_view(EditKind::RemoveNode, span, e, e)]),
        Step::Bootstrap { span, .. } => match required(resp) {
            Ok(r) => Ok(seq![edit_view(EditKind::InsertText, span, e, r)]),
            Err(x) => Err(x),
        },
    }
}

/// The edits of the first `n` steps, given the answer each got.
pub open spec fn assemble(doc: Document, steps: Seq<Step>, rs: Seq<Option<Seq<char>>>, n: int) -> Result<
    Seq<EditView>,
    RewriterError,
>
    decreases n,
{
    if n <= 0 {
        Ok(Seq::empty())
    } else {
        match assemble(doc, steps, rs, n - 1) {
            Err(x) => Err(x),
            Ok(a) => match step_edits(doc, steps[n - 1], rs[n - 1]) {
                Err(x) => Err(x),
                Ok(b) => Ok(a + b),
            },
        }
    }
}

/// The views of an optional answer.
pub open spec fn answer_view(resp: Option<String>) -> Option<Seq<char>> {
    match resp {
        Some(s) => Some(s@),
        None => None,
    }
}

/// The text of a range already known to be valid.
fn text(doc: &Document, r: crate::document::TextRange) -> (s: String)
    requires
        r.within(doc.data@.len()),
        doc.valid(r),
    ensures
        s@ == doc.text(r),
{
    match doc.decode(r) {
        Ok(s) => s,
        Err(_) => {
            assert(false);
            String::new()
        },
    }
}

/// Builds the request a step makes of the external tool.
pub fn step_request(doc: &Document, step: Step) -> (r: Option<VisitorExternalTool>)
    requires
        step_ok(*doc, step),
    ensures
        r is Some <==> !(step is Rule || step is RemoveNode),
        r is Some ==> tool_request(*doc, step, r->Some_0),
{
    match step {
        Step::SetMetaBase { href } => Some(VisitorExternalTool::SetMetaBase(text(doc, href))),
        Step::EventAttr { attr, code, .. } => Some(VisitorExternalTool::RewriteJsAttr { attr: text(doc, attr), code: text(doc, code) }),
        Step::ScriptSource { code, .. } => Some(VisitorExternalTool::Base64(text(doc, code))),
        Step::ScriptCode { code, module, .. } => Some(VisitorExternalTool::RewriteInlineScript { code: text(doc, code), module }),
        Step::Css { text: c, .. } => Some(VisitorExternalTool::RewriteCss(text(doc, c))),
        Step::Refresh { content, .. } => Some(VisitorExternalTool::RewriteHttpEquivContent(text(doc, content))),
        Step::Bootstrap { found_head, .. } => Some(VisitorExternalTool::GetScriptText { found_head }),
        _ => None,
    }
}

fn single(e: Edit) -> (r: Vec<Edit>)
    ensures
        edits_view(r@) == seq![e@],
{
    let mut v: Vec<Edit> = Vec::new();
    v.push(e);
    assert(edits_view(v@) =~= seq![e@]);
    v
}

fn empty_required() -> (r: Result<Vec<Edit>, RewriterError>)
    ensures
        r == Err::<Vec<Edit>, RewriterError>(RewriterError::ExternalToolEmpty),
{
    Err(RewriterError::ExternalToolEmpty)
}

/// Every edit of a list has its span in the document, start before end.
pub open spec fn spans_within(doc: Document, edits: Seq<EditView>) -> bool {
    forall|k: int| 0 <= k < edits.len() ==> span_within(#[trigger] edits[k].span, doc.data@.len())
}

/// A well-formed step edits only spans inside the document.
pub proof fn lemma_step_edits_within(doc: Document, step: Step, resp: Option<Seq<char>>)
    requires
        step_ok(doc, step),
    ensures
        step_edits(doc, step, resp) is Ok ==> spans_within(doc, step_edits(doc, step, resp)->Ok_0),
{
}

/// Joining two lists of edits keeps their spans inside the document.
pub proof fn lemma_spans_within_concat(doc: Document, a: Seq<EditView>, b: Seq<EditView>)
    requires
        spans_within(doc, a),
        spans_within(doc, b),
    ensures
        spans_within(doc, a + b),
{
    assert forall|k: int| 0 <= k < (a + b).len() implies span_within(#[trigger] (a + b)[k].span, doc.data@.len()) by {
        if k < a.len() {
            assert((a + b)[k] == a[k]);
        } else {
            assert((a + b)[k] == b[k - a.len()]);
        }
    }
}

/// Makes the edits of a step from the answer it got: exactly `step_edits`.
pub fn complete_step(doc: &Document, step: Step, resp: Option<String>) -> (r: Result<Vec<Edit>, RewriterError>)
    requires
        step_ok(*doc, step),
    ensures
        r is Ok == step_edits(*doc, step, answer_view(resp)) is Ok,
        r is Ok ==> edits_view(r->Ok_0@) == step_edits(*doc, step, answer_view(resp))->Ok_0,
        r is Err ==> step_edits(*doc, step, answer_view(resp)) == Err::<Seq<EditView>, RewriterError>(r->Err_0),
        r is Err ==> r->Err_0 == RewriterError::ExternalToolEmpty,
{
    proof {
        lemma_step_edits_within(*doc, step, answer_view(resp));
    }
    let e = String::new();
    match step {
        Step::SetMetaBase { .. } => {
            let v: Vec<Edit> = Vec::new();
            assert(edits_view(v@) =~= Seq::empty());
            Ok(v)
        },
        Step::Rule { value_span, remove_span, module, .. } => match resp {
            Some(v) => {
                let v = if module {
                    v.concat(MODULE_SUFFIX)
                } else {
                    v
                };
                Ok(single(Edit::new(EditKind::ReplaceAttr, value_span, e, v)))
            },
            None => Ok(single(Edit::bare(EditKind::RemoveAttr, remove_span))),
        },
        Step::EventAttr { attr, code, span } => match resp {
            Some(r) => {
                let mut v = single(Edit::new(EditKind::ReplaceAttr, span, e, r));
                let marker = Edit::new(EditKind::AddMarkerAttr, span, text(doc, attr), text(doc, code));
                let ghost v0 = v@;
                v.push(marker);
                assert(edits_view(v@) =~= edits_view(v0).push(marker@));
                Ok(v)
            },
            None => empty_required(),
        },
        Step::ScriptSource { marker_span, .. } => match resp {
            Some(r) => Ok(single(Edit::new(EditKind::AddMarkerAttr, marker_span, SCRIPT_SOURCE_ATTR.to_owned(), r))),
            None => empty_required(),
        },
        Step::ScriptCode { span, .. } | Step::Css { span, .. } => match resp {
            Some(r) => Ok(single(Edit::new(EditKind::Replace, span, e, r))),
            None => empty_required(),
        },
        Step::Refresh { span, .. } => match resp {
            Some(r) => Ok(single(Edit::new(EditKind::ReplaceAttr, span, e, r))),
            None => empty_required(),
        },
        Step::RemoveNode { span } => Ok(single(Edit::bare(EditKind::RemoveNode, span))),
        Step::Bootstrap { span, .. } => match resp {
            Some(r) => Ok(single(Edit::new(EditKind::InsertText, span, e, r))),
            None => empty_required(),
        },
    }
}

/// Whether `edits` is what a pass of these steps makes for some answers,
/// one per step.
pub open spec fn rewrite_outcome(doc: Document, steps: Seq<Step>, edits: Seq<EditView>) -> bool {
    exists|rs: Seq<Option<Seq<char>>>|
        rs.len() == steps.len() && #[trigger] assemble(doc, steps, rs, steps.len() as int) == Ok::<
            Seq<EditView>,
            RewriterError,
        >(edits)
}

proof fn lemma_assemble_ext(doc: Document, steps: Seq<Step>, rs1: Seq<Option<Seq<char>>>, rs2: Seq<Option<Seq<char>>>, n: int)
    requires
        forall|k: int| 0 <= k < n ==> rs1[k] == rs2[k],
    ensures
        assemble(doc, steps, rs1, n) == assemble(doc, steps, rs2, n),
    decreases n,
{
    if n > 0 {
        lemma_assemble_ext(doc, steps, rs1, rs2, n - 1);
    }
}

/// Whether a step calls out: every step but a node removal asks a rule or
/// the external tool.
pub open spec fn calls_out(step: Step) -> bool {
    !(step is RemoveNode)
}

/// The steps among the first `n` that call out, in order: the calls a pass
/// makes for them.
pub open spec fn called(steps: Seq<Step>, n: int) -> Seq<Step>
    decreases n,
{
    if n <= 0 {
        Seq::empty()
    } else if calls_out(steps[n - 1]) {
        called(steps, n - 1).push(steps[n - 1])
    } else {
        called(steps, n - 1)
    }
}

/// Whether a pass failed at step `m` with error `e`: the steps before it
/// went through for some answers, and `m` made a call that failed (a rule
/// callback gives `Rewrite`, the tool `ExternalTool`) or got no answer
/// where one is required (`ExternalToolEmpty`).
pub open spec fn failed_at(doc: Document, steps: Seq<Step>, m: int, e: RewriterError) -> bool {
    &&& 0 <= m < steps.len()
    &&& calls_out(steps[m])
    &&& exists|rs: Seq<Option<Seq<char>>>| rs.len() == m && (#[trigger] assemble(doc, steps, rs, m)) is Ok
    &&& if steps[m] is Rule {
        e is Rewrite
    } else {
        e is ExternalTool || (e is ExternalToolEmpty && step_edits(doc, steps[m], None) is Err)
    }
}

proof fn lemma_called_prefix(steps: Seq<Step>, n: int)
    requires
        0 <= n < steps.len(),
        !calls_out(steps[n]),
    ensures
        called(steps, n + 1) == called(steps, n),
{
}

/// One rewrite pass over a document.
pub struct Visitor<R, G> {
    /// The attribute-rewrite rules, in priority order.
    pub rules: Vec<RewriteRule<R>>,
    /// The external tool.
    pub external_tool_func: G,
    /// The document and its parsed tags.
    pub data: Document,
    /// Whether this is a top-level pass, which injects the bootstrap text.
    pub from_top: bool,
}

impl<R: RewriteRuleCallback, G: VisitorExternalToolCallback> Visitor<R, G> {
    /// Sends a request to the external tool.
    pub fn external_tool(&self, tool: VisitorExternalTool) -> (r: Result<Option<String>, RewriterError>)
        ensures
            r is Err ==> r->Err_0 is ExternalTool,
    {
        match self.external_tool_func.call(tool) {
            Ok(a) => Ok(a),
            Err(m) => Err(RewriterError::ExternalTool(m)),
        }
    }

    /// Makes the call a step needs and returns its answer.
    fn answer(&self, step: Step) -> (r: Result<Option<String>, RewriterError>)
        requires
            step_wf(self.data, self.rules@.len(), step),
        ensures
            step is RemoveNode ==> r == Ok::<Option<String>, RewriterError>(None),
            r is Err && step is Rule ==> r->Err_0 is Rewrite,
            r is Err && !(step is Rule) ==> r->Err_0 is ExternalTool,
    {
        match step {
            Step::Rule { rule, value, .. } => {
                let v = text(&self.data, value);
                match self.rules[rule].func.call(v.as_str()) {
                    Ok(a) => Ok(a),
                    Err(m) => Err(RewriterError::Rewrite(m)),
                }
            },
            Step::RemoveNode { .. } => Ok(None),
            _ => match step_request(&self.data, step) {
                Some(req) => self.external_tool(req),
                None => Ok(None),
            },
        }
    }

    /// Runs the pass and appends its edits to `changes`, as `rewrite` does,
    /// and also returns the steps whose calls were made, in the order made.
    /// A pass that fails to plan makes no call; one that goes through makes
    /// the call of every step that calls out, in plan order; one that fails
    /// on a call makes no call after it.
    pub fn rewrite_traced(&self, changes: &mut Vec<Edit>) -> (r: (Result<(), RewriterError>, Ghost<Seq<Step>>))
        requires
            self.data.wf(),
        ensures
            plan_of(self.data, self.rules@, self.from_top) is Err ==> r.0 == Err::<(), RewriterError>(
                plan_of(self.data, self.rules@, self.from_top)->Err_0,
            ) && r.1@ == Seq::<Step>::empty(),
            plan_of(self.data, self.rules@, self.from_top) is Ok && r.0 is Err ==> exists|m: int|
                #[trigger] failed_at(self.data, plan_of(self.data, self.rules@, self.from_top)->Ok_0, m, r.0->Err_0)
                    && r.1@ == called(plan_of(self.data, self.rules@, self.from_top)->Ok_0, m + 1),
            plan_of(self.data, self.rules@, self.from_top) is Ok && (forall|k: int|
                0 <= k < plan_of(self.data, self.rules@, self.from_top)->Ok_0.len() ==> !calls_out(
                    #[trigger] plan_of(self.data, self.rules@, self.from_top)->Ok_0[k],
                )) ==> r.0 is Ok,
            r.0 is Err ==> final(changes)@ == old(changes)@,
            r.0 is Ok ==> plan_of(self.data, self.rules@, self.from_top) is Ok,
            r.0 is Ok ==> r.1@ == called(
                plan_of(self.data, self.rules@, self.from_top)->Ok_0,
                plan_of(self.data, self.rules@, self.from_top)->Ok_0.len() as int,
            ),
            r.0 is Ok ==> final(changes)@.subrange(0, old(changes)@.len() as int) == old(changes)@,
            r.0 is Ok ==> spans_within(
                self.data,
                edits_view(final(changes)@.subrange(old(changes)@.len() as int, final(changes)@.len() as int)),
            ),
            r.0 is Ok ==> rewrite_outcome(
                self.data,
                plan_of(self.data, self.rules@, self.from_top)->Ok_0,
                edits_view(final(changes)@.subrange(old(changes)@.len() as int, final(changes)@.len() as int)),
            ),
    {
        let steps = match plan(&self.data, &self.rules, self.from_top) {
            Ok(s) => s,
            Err(e) => {
                return (Err(e), Ghost(Seq::empty()));
            },
        };
        let ghost doc = self.data;
        let mut out: Vec<Edit> = Vec::new();
        let ghost mut rs: Seq<Option<Seq<char>>> = Seq::empty();
        let ghost mut trace: Seq<Step> = Seq::empty();
        assert(edits_view(out@) =~= Seq::empty());
        let mut i: usize = 0;
        while i < steps.len()
            invariant
                self.data.wf(),
                doc == self.data,
                plan_of(self.data, self.rules@, self.from_top) == Ok::<Seq<Step>, RewriterError>(steps@),
                all_wf(self.data, self.rules@.len(), steps@),
                i <= steps@.len(),
                rs.len() == i,
                assemble(self.data, steps@, rs, i as int) == Ok::<Seq<EditView>, RewriterError>(edits_view(out@)),
                spans_within(self.data, edits_view(out@)),
                trace == called(steps@, i as int),
            decreases steps@.len() - i,
        {
            let step = steps[i];
            assert(step_wf(self.data, self.rules@.len(), step));
            proof {
                if calls_out(step) {
                    trace = trace.push(step);
                }
            }
            assert(trace == called(steps@, i + 1));
            let resp = match self.answer(step) {
                Ok(a) => a,
                Err(e) => {
                    let res: (Result<(), RewriterError>, Ghost<Seq<Step>>) = (Err(e), Ghost(trace));
                    assert(failed_at(doc, steps@, i as int, res.0->Err_0) && res.1@ == called(steps@, i as int + 1));
                    return res;
                },
            };
            let ghost a = answer_view(resp);
            let ghost rs2 = rs.push(a);
            proof {
                lemma_assemble_ext(self.data, steps@, rs, rs2, i as int);
            }
            let mut es = match complete_step(&self.data, step, resp) {
                Ok(es) => es,
                Err(e) => {
                    assert(step_edits(doc, step, None) is Err);
                    let res: (Result<(), RewriterError>, Ghost<Seq<Step>>) = (Err(e), Ghost(trace));
                    assert(failed_at(doc, steps@, i as int, res.0->Err_0) && res.1@ == called(steps@, i as int + 1));
                    return res;
                },
            };
            let ghost o = out@;
            out.append(&mut es);
            proof {
                rs = rs2;
                assert(edits_view(out@) =~= edits_view(o) + step_edits(self.data, step, a)->Ok_0);
                lemma_step_edits_within(self.data, step, a);
                lemma_spans_within_concat(self.data, edits_view(o), step_edits(self.data, step, a)->Ok_0);
            }
            i = i + 1;
        }
        let ghost old_changes = changes@;
        let ghost outv = out@;
        changes.append(&mut out);
        proof {
            assert(changes@.subrange(0, old_changes.len() as int) =~= old_changes);
            assert(changes@.subrange(old_changes.len() as int, changes@.len() as int) =~= outv);
            assert(steps@.len() == rs.len());
        }
        (Ok(()), Ghost(trace))
    }

    /// Runs the pass and appends its edits to `changes`. Where the document
    /// fails to plan, fails with that error before any call out. Where no
    /// planned step calls out, succeeds. Otherwise the edits appended are
    /// those the planned steps make from some answers to their calls, or the
    /// pass fails at one call (see `failed_at`) and appends nothing.
    pub fn rewrite(&self, changes: &mut Vec<Edit>) -> (r: Result<(), RewriterError>)
        requires
            self.data.wf(),
        ensures
            plan_of(self.data, self.rules@, self.from_top) is Err ==> r == Err::<(), RewriterError>(
                plan_of(self.data, self.rules@, self.from_top)->Err_0,
            ),
            plan_of(self.data, self.rules@, self.from_top) is Ok && r is Err ==> exists|m: int|
                #[trigger] failed_at(self.data, plan_of(self.data, self.rules@, self.from_top)->Ok_0, m, r->Err_0),
            plan_of(self.data, self.rules@, self.from_top) is Ok && (forall|k: int|
                0 <= k < plan_of(self.data, self.rules@, self.from_top)->Ok_0.len() ==> !calls_out(
                    #[trigger] plan_of(self.data, self.rules@, self.from_top)->Ok_0[k],
                )) ==> r is Ok,
            r is Err ==> final(changes)@ == old(changes)@,
            r is Ok ==> plan_of(self.data, self.rules@, self.from_top) is Ok,
            r is Ok ==> final(changes)@.subrange(0, old(changes)@.len() as int) == old(changes)@,
            r is Ok ==> spans_within(
                self.data,
                edits_view(final(changes)@.subrange(old(changes)@.len() as int, final(changes)@.len() as int)),
            ),
            r is Ok ==> rewrite_outcome(
                self.data,
                plan_of(self.data, self.rules@, self.from_top)->Ok_0,
                edits_view(final(changes)@.subrange(old(changes)@.len() as int, final(changes)@.len() as int)),
            ),
    {
        let (r, _trace) = self.rewrite_traced(changes);
        r
    }
}

} // verus!
