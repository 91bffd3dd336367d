use crate::document::{boundaries, boundaries_of, calculate_bounds, span_of, span_within, Document, Span, Tag, TextRange};
use crate::error::RewriterError;
use crate::events::{is_event_attribute, is_event_name};
use crate::rules::{check_rules, owning_rule, RewriteRule};
use crate::text::{ascii_lower, eq_ascii_lowercase, text_eq};
use vstd::prelude::*;

verus! {

/// One unit of work of a rewrite pass: at most one call out (to a rule's
/// callback or to the external tool) and the edits made from its answer.
#[derive(Clone, Copy, Debug, PartialEq, Eq, Structural)]
pub enum Step {
    /// Tell the external tool the document's base URL.
    SetMetaBase { href: TextRange },
    /// Ask rule `rule` for a new value of an attribute.
    Rule { rule: usize, value: TextRange, value_span: Span, remove_span: Span, module: bool },
    /// Rewrite an inline event handler, keeping its untransformed code.
    EventAttr { attr: TextRange, code: TextRange, span: Span },
    /// Record the base64 of an inline script's source on its tag.
    ScriptSource { code: TextRange, marker_span: Span },
    /// Rewrite an inline script.
    ScriptCode { code: TextRange, span: Span, module: bool },
    /// Rewrite the text of a style tag.
    Css { text: TextRange, span: Span },
    /// Rewrite the content of a refresh meta tag.
    Refresh { content: TextRange, span: Span },
    /// Remove a content-security-policy meta tag.
    RemoveNode { span: Span },
    /// Insert the bootstrap text.
    Bootstrap { found_head: bool, span: Span },
}

/// What a step reads from the document is there and is text, and each span
/// it edits lies in the document, start before end.
pub open spec fn step_ok(doc: Document, step: Step) -> bool {
    let ok = |r: TextRange| r.within(doc.data@.len()) && doc.valid(r);
    let inside = |s: Span| span_within(s, doc.data@.len());
    match step {
        Step::SetMetaBase { href } => ok(href),
        Step::Rule { value, value_span, remove_span, .. } => ok(value) && inside(value_span) && inside(remove_span),
        Step::EventAttr { attr, code, span } => ok(attr) && ok(code) && inside(span),
        Step::ScriptSource { code, marker_span } => ok(code) && inside(marker_span),
        Step::ScriptCode { code, span, .. } => ok(code) && inside(span),
        Step::Css { text, span } => ok(text) && inside(span),
        Step::Refresh { content, span } => ok(content) && inside(span),
        Step::RemoveNode { span } => inside(span),
        Step::Bootstrap { span, .. } => inside(span),
    }
}

/// `step_ok`, and the rule a step asks, if any, exists.
pub open spec fn step_wf(doc: Document, n_rules: nat, step: Step) -> bool {
    &&& step_ok(doc, step)
    &&& step matches Step::Rule { rule, .. } ==> rule < n_rules
}

/// Every step of a list is well formed.
pub open spec fn all_wf(doc: Document, n_rules: nat, s: Seq<Step>) -> bool {
    forall|k: int| 0 <= k < s.len() ==> step_wf(doc, n_rules, #[trigger] s[k])
}

/// Joining two lists of well-formed steps gives well-formed steps.
pub proof fn lemma_all_wf_concat(doc: Document, n_rules: nat, a: Seq<Step>, b: Seq<Step>)
    requires
        all_wf(doc, n_rules, a),
        all_wf(doc, n_rules, b),
    ensures
        all_wf(doc, n_rules, a + b),
{
    assert forall|k: int| 0 <= k < (a + b).len() implies step_wf(doc, n_rules, #[trigger] (a + b)[k]) by {
        if k < a.len() {
            assert((a + b)[k] == a[k]);
        } else {
            assert((a + b)[k] == b[k - a.len()]);
        }
    }
}

/// Concatenation of two step lists, the first error winning.
pub open spec fn chain(a: Result<Seq<Step>, RewriterError>, b: Result<Seq<Step>, RewriterError>) -> Result<
    Seq<Step>,
    RewriterError,
> {
    match a {
        Err(e) => Err(e),
        Ok(x) => match b {
            Err(e) => Err(e),
            Ok(y) => Ok(x + y),
        },
    }
}

/// An executable result agrees with a spec result.
pub open spec fn agrees(r: Result<Vec<Step>, RewriterError>, s: Result<Seq<Step>, RewriterError>) -> bool {
    match r {
        Ok(v) => s is Ok && v@ == s->Ok_0,
        Err(e) => s == Err::<Seq<Step>, RewriterError>(e),
    }
}

/// Whether every key of a tag is valid text.
pub open spec fn keys_valid(doc: Document, t: Tag) -> bool {
    forall|j: int| 0 <= j < t.attributes@.len() ==> doc.valid(#[trigger] t.attributes@[j].key)
}

/// Index of the first of the first `n` attributes whose key is `name`.
pub open spec fn first_key(doc: Document, t: Tag, name: Seq<char>, n: int) -> Option<int>
    decreases n,
{
    if n <= 0 {
        None
    } else {
        match first_key(doc, t, name, n - 1) {
            Some(j) => Some(j),
            None => if doc.text(t.attributes@[n - 1].key) == name { Some(n - 1) } else { None },
        }
    }
}

/// The value of attribute `name`: `None` where the tag has no such
/// attribute, `Some(None)` where it has no value.
pub open spec fn attr_value(doc: Document, t: Tag, name: Seq<char>) -> Option<Option<TextRange>> {
    match first_key(doc, t, name, t.attributes@.len() as int) {
        Some(j) => Some(t.attributes@[j].value),
        None => None,
    }
}

/// Text of a value that must be valid.
pub open spec fn checked_text(doc: Document, r: TextRange) -> Result<Seq<char>, RewriterError> {
    if doc.valid(r) {
        Ok(doc.text(r))
    } else {
        Err(RewriterError::NotUtf8)
    }
}

/// Whether a tag is a `base` tag with an `href` that has a value.
pub open spec fn has_base_href(doc: Document, t: Tag) -> bool {
    &&& doc.valid(t.name)
    &&& doc.text(t.name) == "base"@
    &&& attr_value(doc, t, "href"@) matches Some(Some(_))
}

/// Whether one of the first `n` tags is a `base` tag with an `href`.
pub open spec fn base_before(doc: Document, n: int) -> bool
    decreases n,
{
    if n <= 0 {
        false
    } else {
        base_before(doc, n - 1) || has_base_href(doc, doc.tags@[n - 1])
    }
}

/// Steps for a `base` tag with an `href`, where no earlier tag was one
/// (`seen` says whether one was): only the first base URL is sent.
pub open spec fn base_steps(doc: Document, t: Tag, name: Seq<char>, seen: bool) -> Result<Seq<Step>, RewriterError> {
    if name == "base"@ && !seen {
        match attr_value(doc, t, "href"@) {
            Some(Some(h)) => if doc.valid(h) {
                Ok(seq![Step::SetMetaBase { href: h }])
            } else {
                Err(RewriterError::NotUtf8)
            },
            _ => Ok(Seq::empty()),
        }
    } else {
        Ok(Seq::empty())
    }
}

/// Whether a rewritten `src` of this tag gets the module marker: the tag is
/// a `script` whose `type` is `module`.
pub open spec fn module_src(doc: Document, t: Tag, name: Seq<char>, key: Seq<char>) -> Result<bool, RewriterError> {
    if name == "script"@ && key == "src"@ {
        match attr_value(doc, t, "type"@) {
            Some(Some(ty)) => match checked_text(doc, ty) {
                Ok(s) => Ok(s == "module"@),
                Err(e) => Err(e),
            },
            _ => Ok(false),
        }
    } else {
        Ok(false)
    }
}

/// The step of rule matching on attribute `i`.
pub open spec fn rule_step<F>(doc: Document, rules: Seq<RewriteRule<F>>, t: Tag, name: Seq<char>, i: int) -> Result<
    Seq<Step>,
    RewriterError,
> {
    let a = t.attributes@[i];
    let key = doc.text(a.key);
    match (owning_rule(rules, name, key), a.value) {
        (Some(ri), Some(v)) => if !doc.valid(v) {
            Err(RewriterError::NotUtf8)
        } else {
            match module_src(doc, t, name, key) {
                Err(e) => Err(e),
                Ok(module) => match (span_of(v), span_of(TextRange { start: a.key.start, end: v.end })) {
                    (Ok(vs), Ok(rs)) => Ok(
                        seq![Step::Rule { rule: ri as usize, value: v, value_span: vs, remove_span: rs, module }],
                    ),
                    (Err(e), _) => Err(e),
                    (_, Err(e)) => Err(e),
                },
            }
        },
        _ => Ok(Seq::empty()),
    }
}

/// The step of event-handler interception on attribute `i`.
pub open spec fn event_step(doc: Document, t: Tag, i: int) -> Result<Seq<Step>, RewriterError> {
    let a = t.attributes@[i];
    match a.value {
        Some(v) => if is_event_name(doc.text(a.key)) && v.start < v.end {
            if !doc.valid(v) {
                Err(RewriterError::NotUtf8)
            } else {
                match span_of(v) {
                    Ok(s) => Ok(seq![Step::EventAttr { attr: a.key, code: v, span: s }]),
                    Err(e) => Err(e),
                }
            }
        } else {
            Ok(Seq::empty())
        },
        None => Ok(Seq::empty()),
    }
}

/// Steps for the first `n` attributes of a tag.
pub open spec fn attrs_steps<F>(doc: Document, rules: Seq<RewriteRule<F>>, t: Tag, name: Seq<char>, n: int) -> Result<
    Seq<Step>,
    RewriterError,
>
    decreases n,
{
    if n <= 0 {
        Ok(Seq::empty())
    } else {
        chain(
            attrs_steps(doc, rules, t, name, n - 1),
            chain(rule_step(doc, rules, t, name, n - 1), event_step(doc, t, n - 1)),
        )
    }
}

/// Steps for a `style` tag whose first child is raw text.
pub open spec fn style_steps(doc: Document, t: Tag, name: Seq<char>) -> Result<Seq<Step>, RewriterError> {
    match t.first_raw_child {
        Some(c) => if name == "style"@ {
            if !doc.valid(c) {
                Err(RewriterError::NotUtf8)
            } else {
                match span_of(c) {
                    Ok(s) => Ok(seq![Step::Css { text: c, span: s }]),
                    Err(e) => Err(e),
                }
            }
        } else {
            Ok(Seq::empty())
        },
        None => Ok(Seq::empty()),
    }
}

/// Whether a script `type` marks content this pass rewrites.
pub open spec fn script_type_ok(ty: Option<Seq<char>>) -> bool {
    match ty {
        None => true,
        Some(s) => s == "application/javascript"@ || s == "text/javascript"@ || s == "module"@ || s == "importmap"@,
    }
}

/// The `type` of a tag, as text; `None` where it is absent or has no value.
pub open spec fn script_type(doc: Document, t: Tag) -> Result<Option<Seq<char>>, RewriterError> {
    match attr_value(doc, t, "type"@) {
        Some(Some(ty)) => match checked_text(doc, ty) {
            Ok(s) => Ok(Some(s)),
            Err(e) => Err(e),
        },
        _ => Ok(None),
    }
}

/// Steps for an inline `script` tag.
pub open spec fn script_steps(doc: Document, t: Tag, name: Seq<char>) -> Result<Seq<Step>, RewriterError> {
    if name == "script"@ {
        match script_type(doc, t) {
            Err(e) => Err(e),
            Ok(ty) => if script_type_ok(ty) && attr_value(doc, t, "src"@) is None {
                if !doc.valid(t.inner) {
                    Err(RewriterError::NotUtf8)
                } else {
                    match (span_of(t.name), span_of(t.inner)) {
                        (Ok(ns), Ok(is)) => Ok(
                            seq![
                                Step::ScriptSource { code: t.inner, marker_span: ns },
                                Step::ScriptCode { code: t.inner, span: is, module: ty == Some("module"@) },
                            ],
                        ),
                        (Err(e), _) => Err(e),
                        (_, Err(e)) => Err(e),
                    }
                }
            } else {
                Ok(Seq::empty())
            },
        }
    } else {
        Ok(Seq::empty())
    }
}

/// Steps for a `meta` tag with an `http-equiv`.
pub open spec fn meta_steps(doc: Document, t: Tag, name: Seq<char>) -> Result<Seq<Step>, RewriterError> {
    if name == "meta"@ {
        match attr_value(doc, t, "http-equiv"@) {
            Some(Some(eq)) => if !doc.valid(eq) {
                Err(RewriterError::NotUtf8)
            } else if ascii_lower(doc.text(eq)) == "content-security-policy"@ {
                match boundaries_of(t) {
                    Ok(s) => Ok(seq![Step::RemoveNode { span: s }]),
                    Err(e) => Err(e),
                }
            } else if ascii_lower(doc.text(eq)) == "refresh"@ {
                match attr_value(doc, t, "content"@) {
                    Some(Some(c)) => if !doc.valid(c) {
                        Err(RewriterError::NotUtf8)
                    } else {
                        match span_of(c) {
                            Ok(s) => Ok(seq![Step::Refresh { content: c, span: s }]),
                            Err(e) => Err(e),
                        }
                    },
                    _ => Ok(Seq::empty()),
                }
            } else {
                Ok(Seq::empty())
            },
            _ => Ok(Seq::empty()),
        }
    } else {
        Ok(Seq::empty())
    }
}

/// All steps for one tag, in the order the pass takes them; `seen` says
/// whether an earlier tag was a `base` tag with an `href`.
pub open spec fn tag_steps<F>(doc: Document, rules: Seq<RewriteRule<F>>, t: Tag, seen: bool) -> Result<Seq<Step>, RewriterError> {
    if !doc.valid(t.name) || !keys_valid(doc, t) {
        Err(RewriterError::NotUtf8)
    } else {
        let name = doc.text(t.name);
        chain(
            base_steps(doc, t, name, seen),
            chain(
                attrs_steps(doc, rules, t, name, t.attributes@.len() as int),
                chain(style_steps(doc, t, name), chain(script_steps(doc, t, name), meta_steps(doc, t, name))),
            ),
        )
    }
}

/// Steps for the first `n` tags.
pub open spec fn tags_steps<F>(doc: Document, rules: Seq<RewriteRule<F>>, n: int) -> Result<Seq<Step>, RewriterError>
    decreases n,
{
    if n <= 0 {
        Ok(Seq::empty())
    } else {
        chain(tags_steps(doc, rules, n - 1), tag_steps(doc, rules, doc.tags@[n - 1], base_before(doc, n - 1)))
    }
}

/// Whether tag `i` is a `head` tag.
pub open spec fn is_head(doc: Document, i: int) -> bool {
    doc.valid(doc.tags@[i].name) && doc.text(doc.tags@[i].name) == "head"@
}

/// Index of the first `head` among the first `n` tags.
pub open spec fn first_head(doc: Document, n: int) -> Option<int>
    decreases n,
{
    if n <= 0 {
        None
    } else {
        match first_head(doc, n - 1) {
            Some(h) => Some(h),
            None => if is_head(doc, n - 1) { Some(n - 1) } else { None },
        }
    }
}

/// The bootstrap step: just inside the first `head`, or at the very start
/// where there is none.
pub open spec fn head_step(doc: Document) -> Result<Seq<Step>, RewriterError> {
    match first_head(doc, doc.tags@.len() as int) {
        Some(h) => {
            let at = doc.tags@[h].inner.start;
            match span_of(TextRange { start: at, end: at }) {
                Ok(s) => Ok(seq![Step::Bootstrap { found_head: true, span: s }]),
                Err(e) => Err(e),
            }
        },
        None => Ok(seq![Step::Bootstrap { found_head: false, span: Span { start: 0, end: 0 } }]),
    }
}

/// The steps of a whole pass, in document order; the bootstrap step comes
/// last, and only on a top-level pass.
pub open spec fn plan_of<F>(doc: Document, rules: Seq<RewriteRule<F>>, from_top: bool) -> Result<Seq<Step>, RewriterError> {
    if from_top {
        chain(tags_steps(doc, rules, doc.tags@.len() as int), head_step(doc))
    } else {
        tags_steps(doc, rules, doc.tags@.len() as int)
    }
}

proof fn lemma_first_key_stable(doc: Document, t: Tag, name: Seq<char>, n: int, m: int)
    requires
        n <= m,
        first_key(doc, t, name, n) is Some,
    ensures
        first_key(doc, t, name, m) == first_key(doc, t, name, n),
    decreases m - n,
{
    if n < m {
        lemma_first_key_stable(doc, t, name, n, m - 1);
    }
}

proof fn lemma_first_key_bound(doc: Document, t: Tag, name: Seq<char>, n: int)
    ensures
        first_key(doc, t, name, n) is Some ==> 0 <= first_key(doc, t, name, n)->Some_0 < n,
    decreases n,
{
    if n > 0 {
        lemma_first_key_bound(doc, t, name, n - 1);
    }
}

/// The decoded keys of a tag stand beside it.
pub open spec fn keys_of(doc: Document, t: Tag, keys: Seq<String>) -> bool {
    &&& keys.len() == t.attributes@.len()
    &&& forall|j: int| 0 <= j < keys.len() ==> (#[trigger] keys[j])@ == doc.text(t.attributes@[j].key)
}

fn join(a: Vec<Step>, b: Vec<Step>) -> (r: Vec<Step>)
    ensures
        r@ == a@ + b@,
{
    let mut a = a;
    let mut b = b;
    a.append(&mut b);
    a
}

fn one(s: Step) -> (r: Vec<Step>)
    ensures
        r@ == seq![s],
{
    let mut v: Vec<Step> = Vec::new();
    v.push(s);
    assert(v@ =~= seq![s]);
    v
}

fn decode_keys(doc: &Document, t: &Tag) -> (r: Result<Vec<String>, RewriterError>)
    requires
        t.wf(doc.data@.len()),
    ensures
        r is Ok <==> keys_valid(*doc, *t),
        r is Ok ==> keys_of(*doc, *t, r->Ok_0@),
        r is Err ==> r->Err_0 == RewriterError::NotUtf8,
{
    let mut keys: Vec<String> = Vec::new();
    let mut j: usize = 0;
    while j < t.attributes.len()
        invariant
            t.wf(doc.data@.len()),
            j <= t.attributes@.len(),
            keys@.len() == j,
            forall|m: int| 0 <= m < j ==> doc.valid(#[trigger] t.attributes@[m].key),
            forall|m: int| 0 <= m < j ==> (#[trigger] keys@[m])@ == doc.text(t.attributes@[m].key),
        decreases t.attributes@.len() - j,
    {
        assert(t.attributes@[j as int].within(doc.data@.len()));
        let k = doc.decode(t.attributes[j].key)?;
        keys.push(k);
        j = j + 1;
    }
    Ok(keys)
}

fn lookup(doc: &Document, t: &Tag, keys: &Vec<String>, name: &str) -> (r: Option<usize>)
    requires
        keys_of(*doc, *t, keys@),
    ensures
        r is Some == first_key(*doc, *t, name@, t.attributes@.len() as int) is Some,
        r is Some ==> r->Some_0 == first_key(*doc, *t, name@, t.attributes@.len() as int)->Some_0,
        r is Some ==> r->Some_0 < t.attributes@.len(),
{
    proof {
        lemma_first_key_bound(*doc, *t, name@, t.attributes@.len() as int);
    }
    let mut j: usize = 0;
    while j < keys.len()
        invariant
            keys_of(*doc, *t, keys@),
            j <= keys@.len(),
            first_key(*doc, *t, name@, j as int) is None,
        decreases keys@.len() - j,
    {
        if text_eq(keys[j].as_str(), name) {
            proof {
                lemma_first_key_stable(*doc, *t, name@, j + 1, t.attributes@.len() as int);
            }
            return Some(j);
        }
        j = j + 1;
    }
    None
}

fn get_value(doc: &Document, t: &Tag, keys: &Vec<String>, name: &str) -> (r: Option<Option<TextRange>>)
    requires
        keys_of(*doc, *t, keys@),
    ensures
        r == attr_value(*doc, *t, name@),
{
    match lookup(doc, t, keys, name) {
        Some(j) => Some(t.attributes[j].value),
        None => None,
    }
}

fn plan_base(doc: &Document, t: &Tag, keys: &Vec<String>, name: &String, seen: bool, Ghost(n_rules): Ghost<nat>) -> (r: Result<Vec<Step>, RewriterError>)
    requires
        t.wf(doc.data@.len()),
        keys_of(*doc, *t, keys@),
    ensures
        agrees(r, base_steps(*doc, *t, name@, seen)),
        r is Ok ==> all_wf(*doc, n_rules, r->Ok_0@),
{
    if text_eq(name.as_str(), "base") && !seen {
        if let Some(Some(h)) = get_value(doc, t, keys, "href") {
            proof {
                lemma_value_within(*doc, *t, "href"@);
            }
            doc.decode(h)?;
            return Ok(one(Step::SetMetaBase { href: h }));
        }
    }
    Ok(Vec::new())
}

proof fn lemma_value_within(doc: Document, t: Tag, name: Seq<char>)
    requires
        t.wf(doc.data@.len()),
    ensures
        attr_value(doc, t, name) matches Some(Some(v)) ==> v.within(doc.data@.len()),
{
    lemma_first_key_bound(doc, t, name, t.attributes@.len() as int);
    if let Some(j) = first_key(doc, t, name, t.attributes@.len() as int) {
        assert(t.attributes@[j].within(doc.data@.len()));
    }
}

fn plan_module_src(doc: &Document, t: &Tag, keys: &Vec<String>, name: &String, key: &String) -> (r: Result<bool, RewriterError>)
    requires
        t.wf(doc.data@.len()),
        keys_of(*doc, *t, keys@),
    ensures
        r == module_src(*doc, *t, name@, key@),
{
    if text_eq(name.as_str(), "script") && text_eq(key.as_str(), "src") {
        if let Some(Some(ty)) = get_value(doc, t, keys, "type") {
            proof {
                lemma_value_within(*doc, *t, "type"@);
            }
            let s = doc.decode(ty)?;
            return Ok(text_eq(s.as_str(), "module"));
        }
    }
    Ok(false)
}

fn plan_rule<F>(
    doc: &Document,
    rules: &Vec<RewriteRule<F>>,
    t: &Tag,
    keys: &Vec<String>,
    name: &String,
    i: usize,
) -> (r: Result<Vec<Step>, RewriterError>)
    requires
        t.wf(doc.data@.len()),
        keys_of(*doc, *t, keys@),
        i < t.attributes@.len(),
    ensures
        agrees(r, rule_step(*doc, rules@, *t, name@, i as int)),
        r is Ok ==> all_wf(*doc, rules@.len(), r->Ok_0@),
{
    let a = t.attributes[i];
    assert(a.within(doc.data@.len()));
    let key = &keys[i];
    if let Some(ri) = check_rules(rules, name.as_str(), key.as_str()) {
        if let Some(v) = a.value {
            doc.decode(v)?;
            let module = plan_module_src(doc, t, keys, name, key)?;
            let vs = calculate_bounds(v)?;
            let rs = calculate_bounds(TextRange { start: a.key.start, end: v.end })?;
            return Ok(one(Step::Rule { rule: ri, value: v, value_span: vs, remove_span: rs, module }));
        }
    }
    Ok(Vec::new())
}

fn plan_event(doc: &Document, t: &Tag, keys: &Vec<String>, i: usize, Ghost(n_rules): Ghost<nat>) -> (r: Result<Vec<Step>, RewriterError>)
    requires
        t.wf(doc.data@.len()),
        keys_of(*doc, *t, keys@),
        keys_valid(*doc, *t),
        i < t.attributes@.len(),
    ensures
        agrees(r, event_step(*doc, *t, i as int)),
        r is Ok ==> all_wf(*doc, n_rules, r->Ok_0@),
{
    let a = t.attributes[i];
    assert(a.within(doc.data@.len()));
    assert(doc.valid(t.attributes@[i as int].key));
    if let Some(v) = a.value {
        if is_event_attribute(keys[i].as_str()) && v.start < v.end {
            doc.decode(v)?;
            let s = calculate_bounds(v)?;
            return Ok(one(Step::EventAttr { attr: a.key, code: v, span: s }));
        }
    }
    Ok(Vec::new())
}

fn plan_attrs<F>(doc: &Document, rules: &Vec<RewriteRule<F>>, t: &Tag, keys: &Vec<String>, name: &String) -> (r: Result<
    Vec<Step>,
    RewriterError,
>)
    requires
        t.wf(doc.data@.len()),
        keys_of(*doc, *t, keys@),
        keys_valid(*doc, *t),
    ensures
        agrees(r, attrs_steps(*doc, rules@, *t, name@, t.attributes@.len() as int)),
        r is Ok ==> all_wf(*doc, rules@.len(), r->Ok_0@),
{
    let mut out: Vec<Step> = Vec::new();
    let mut i: usize = 0;
    while i < t.attributes.len()
        invariant
            t.wf(doc.data@.len()),
            keys_of(*doc, *t, keys@),
            keys_valid(*doc, *t),
            i <= t.attributes@.len(),
            attrs_steps(*doc, rules@, *t, name@, i as int) == Ok::<Seq<Step>, RewriterError>(out@),
            all_wf(*doc, rules@.len(), out@),
        decreases t.attributes@.len() - i,
    {
        let rs = match plan_rule(doc, rules, t, keys, name, i) {
            Ok(v) => v,
            Err(e) => {
                assert(attrs_steps(*doc, rules@, *t, name@, i + 1) == Err::<Seq<Step>, RewriterError>(e));
                proof { lemma_attrs_err(*doc, rules@, *t, name@, i + 1, t.attributes@.len() as int); }
                return Err(e);
            },
        };
        let es = match plan_event(doc, t, keys, i, Ghost(rules@.len())) {
            Ok(v) => v,
            Err(e) => {
                assert(attrs_steps(*doc, rules@, *t, name@, i + 1) == Err::<Seq<Step>, RewriterError>(e));
                proof { lemma_attrs_err(*doc, rules@, *t, name@, i + 1, t.attributes@.len() as int); }
                return Err(e);
            },
        };
        proof {
            assert(out@ + (rs@ + es@) == out@ + rs@ + es@);
            lemma_all_wf_concat(*doc, rules@.len(), out@, rs@);
            lemma_all_wf_concat(*doc, rules@.len(), out@ + rs@, es@);
        }
        out = join(join(out, rs), es);
        i = i + 1;
    }
    Ok(out)
}

proof fn lemma_attrs_err<F>(doc: Document, rules: Seq<RewriteRule<F>>, t: Tag, name: Seq<char>, n: int, m: int)
    requires
        n <= m,
        attrs_steps(doc, rules, t, name, n) is Err,
    ensures
        attrs_steps(doc, rules, t, name, m) == attrs_steps(doc, rules, t, name, n),
    decreases m - n,
{
    if n < m {
        lemma_attrs_err(doc, rules, t, name, n, m - 1);
    }
}

fn plan_style(doc: &Document, t: &Tag, name: &String, Ghost(n_rules): Ghost<nat>) -> (r: Result<Vec<Step>, RewriterError>)
    requires
        t.wf(doc.data@.len()),
    ensures
        agrees(r, style_steps(*doc, *t, name@)),
        r is Ok ==> all_wf(*doc, n_rules, r->Ok_0@),
{
    if let Some(c) = t.first_raw_child {
        if text_eq(name.as_str(), "style") {
            doc.decode(c)?;
            let s = calculate_bounds(c)?;
            return Ok(one(Step::Css { text: c, span: s }));
        }
    }
    Ok(Vec::new())
}

/// Whether a script `type` marks content this pass rewrites: absent, plain
/// JavaScript, a module or an import map.
pub fn match_script_type(ty: Option<&str>) -> (r: bool)
    ensures
        r == script_type_ok(
            match ty {
                Some(s) => Some(s@),
                None => None,
            },
        ),
{
    match ty {
        None => true,
        Some(s) => text_eq(s, "application/javascript") || text_eq(s, "text/javascript") || text_eq(s, "module")
            || text_eq(s, "importmap"),
    }
}

fn plan_script(doc: &Document, t: &Tag, keys: &Vec<String>, name: &String, Ghost(n_rules): Ghost<nat>) -> (r: Result<Vec<Step>, RewriterError>)
    requires
        t.wf(doc.data@.len()),
        keys_of(*doc, *t, keys@),
    ensures
        agrees(r, script_steps(*doc, *t, name@)),
        r is Ok ==> all_wf(*doc, n_rules, r->Ok_0@),
{
    if !text_eq(name.as_str(), "script") {
        return Ok(Vec::new());
    }
    let ty: Option<String> = match get_value(doc, t, keys, "type") {
        Some(Some(v)) => {
            proof {
                lemma_value_within(*doc, *t, "type"@);
            }
            Some(doc.decode(v)?)
        },
        _ => None,
    };
    let ok = match &ty {
        Some(s) => match_script_type(Some(s.as_str())),
        None => match_script_type(None),
    };
    if ok && get_value(doc, t, keys, "src").is_none() {
        doc.decode(t.inner)?;
        let ns = calculate_bounds(t.name)?;
        let is = calculate_bounds(t.inner)?;
        let module = match &ty {
            Some(s) => text_eq(s.as_str(), "module"),
            None => false,
        };
        let mut out = one(Step::ScriptSource { code: t.inner, marker_span: ns });
        out.push(Step::ScriptCode { code: t.inner, span: is, module });
        assert(out@ =~= seq![
            Step::ScriptSource { code: t.inner, marker_span: ns },
            Step::ScriptCode { code: t.inner, span: is, module },
        ]);
        return Ok(out);
    }
    Ok(Vec::new())
}

fn plan_meta(doc: &Document, t: &Tag, keys: &Vec<String>, name: &String, Ghost(n_rules): Ghost<nat>) -> (r: Result<Vec<Step>, RewriterError>)
    requires
        t.wf(doc.data@.len()),
        keys_of(*doc, *t, keys@),
    ensures
        agrees(r, meta_steps(*doc, *t, name@)),
        r is Ok ==> all_wf(*doc, n_rules, r->Ok_0@),
{
    if !text_eq(name.as_str(), "meta") {
        return Ok(Vec::new());
    }
    if let Some(Some(eq)) = get_value(doc, t, keys, "http-equiv") {
        proof {
            lemma_value_within(*doc, *t, "http-equiv"@);
        }
        let val = doc.decode(eq)?;
        if eq_ascii_lowercase(val.as_str(), "content-security-policy") {
            let s = boundaries(t)?;
            return Ok(one(Step::RemoveNode { span: s }));
        } else if eq_ascii_lowercase(val.as_str(), "refresh") {
            if let Some(Some(c)) = get_value(doc, t, keys, "content") {
                proof {
                    lemma_value_within(*doc, *t, "content"@);
                }
                doc.decode(c)?;
                let s = calculate_bounds(c)?;
                return Ok(one(Step::Refresh { content: c, span: s }));
            }
        }
    }
    Ok(Vec::new())
}

/// The steps of one tag, and whether it is a `base` tag with an `href`.
fn plan_tag<F>(doc: &Document, rules: &Vec<RewriteRule<F>>, t: &Tag, seen: bool) -> (r: Result<
    (Vec<Step>, bool),
    RewriterError,
>)
    requires
        t.wf(doc.data@.len()),
    ensures
        r is Ok == tag_steps(*doc, rules@, *t, seen) is Ok,
        r is Ok ==> r->Ok_0.0@ == tag_steps(*doc, rules@, *t, seen)->Ok_0,
        r is Ok ==> r->Ok_0.1 == has_base_href(*doc, *t),
        r is Err ==> tag_steps(*doc, rules@, *t, seen) == Err::<Seq<Step>, RewriterError>(r->Err_0),
        r is Ok ==> all_wf(*doc, rules@.len(), r->Ok_0.0@),
{
    let name = doc.decode(t.name)?;
    let keys = decode_keys(doc, t)?;
    let ghost n = rules@.len();
    let b = plan_base(doc, t, &keys, &name, seen, Ghost(n))?;
    let is_base = text_eq(name.as_str(), "base") && matches!(get_value(doc, t, &keys, "href"), Some(Some(_)));
    let a = plan_attrs(doc, rules, t, &keys, &name)?;
    let st = plan_style(doc, t, &name, Ghost(n))?;
    let sc = plan_script(doc, t, &keys, &name, Ghost(n))?;
    let m = plan_meta(doc, t, &keys, &name, Ghost(n))?;
    proof {
        lemma_all_wf_concat(*doc, n, b@, a@);
        lemma_all_wf_concat(*doc, n, b@ + a@, st@);
        lemma_all_wf_concat(*doc, n, b@ + a@ + st@, sc@);
        lemma_all_wf_concat(*doc, n, b@ + a@ + st@ + sc@, m@);
        assert(b@ + (a@ + (st@ + (sc@ + m@))) == b@ + a@ + st@ + sc@ + m@);
    }
    Ok((join(join(join(join(b, a), st), sc), m), is_base))
}

proof fn lemma_tags_err<F>(doc: Document, rules: Seq<RewriteRule<F>>, n: int, m: int)
    requires
        n <= m,
        tags_steps(doc, rules, n) is Err,
    ensures
        tags_steps(doc, rules, m) == tags_steps(doc, rules, n),
    decreases m - n,
{
    if n < m {
        lemma_tags_err(doc, rules, n, m - 1);
    }
}

proof fn lemma_first_head_stable(doc: Document, n: int, m: int)
    requires
        n <= m,
        first_head(doc, n) is Some,
    ensures
        first_head(doc, m) == first_head(doc, n),
    decreases m - n,
{
    if n < m {
        lemma_first_head_stable(doc, n, m - 1);
    }
}

proof fn lemma_first_head_bound(doc: Document, n: int)
    ensures
        first_head(doc, n) is Some ==> 0 <= first_head(doc, n)->Some_0 < n,
    decreases n,
{
    if n > 0 {
        lemma_first_head_bound(doc, n - 1);
    }
}

/// Plans a whole pass: the steps of every tag in document order, then, on a
/// top-level pass, the bootstrap step. Fails where a name or value read is
/// not valid text, or an offset does not fit in an edit.
pub fn plan<F>(doc: &Document, rules: &Vec<RewriteRule<F>>, from_top: bool) -> (r: Result<Vec<Step>, RewriterError>)
    requires
        doc.wf(),
    ensures
        agrees(r, plan_of(*doc, rules@, from_top)),
        r is Ok ==> all_wf(*doc, rules@.len(), r->Ok_0@),
{
    let mut out: Vec<Step> = Vec::new();
    let mut head: Option<usize> = None;
    let mut seen: bool = false;
    let mut i: usize = 0;
    while i < doc.tags.len()
        invariant
            doc.wf(),
            i <= doc.tags@.len(),
            tags_steps(*doc, rules@, i as int) == Ok::<Seq<Step>, RewriterError>(out@),
            all_wf(*doc, rules@.len(), out@),
            head is Some == first_head(*doc, i as int) is Some,
            head is Some ==> head->Some_0 == first_head(*doc, i as int)->Some_0,
            seen == base_before(*doc, i as int),
        decreases doc.tags@.len() - i,
    {
        let t = &doc.tags[i];
        assert(t.wf(doc.data@.len()));
        let (steps, is_base) = match plan_tag(doc, rules, t, seen) {
            Ok(v) => v,
            Err(e) => {
                assert(tags_steps(*doc, rules@, i + 1) == Err::<Seq<Step>, RewriterError>(e));
                proof { lemma_tags_err(*doc, rules@, i + 1, doc.tags@.len() as int); }
                return Err(e);
            },
        };
        if head.is_none() {
            // a tag whose name is not text has already failed above
            let name = doc.decode(t.name);
            if let Ok(n) = name {
                if text_eq(n.as_str(), "head") {
                    head = Some(i);
                }
            }
        }
        proof {
            lemma_all_wf_concat(*doc, rules@.len(), out@, steps@);
        }
        out = join(out, steps);
        seen = seen || is_base;
        i = i + 1;
    }
    if !from_top {
        return Ok(out);
    }
    proof {
        lemma_first_head_bound(*doc, doc.tags@.len() as int);
    }
    let boot = match head {
        Some(h) => {
            assert(doc.tags@[h as int].wf(doc.data@.len()));
            let at = doc.tags[h].inner.start;
            let s = calculate_bounds(TextRange { start: at, end: at })?;
            Step::Bootstrap { found_head: true, span: s }
        },
        None => Step::Bootstrap { found_head: false, span: Span { start: 0, end: 0 } },
    };
    let last = one(boot);
    proof {
        lemma_all_wf_concat(*doc, rules@.len(), out@, last@);
    }
    Ok(join(out, last))
}

} // verus!
