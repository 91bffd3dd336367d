use std::cell::RefCell;

use html_rewriter::document::{calculate_bounds, Attribute, Document, Span, Tag, TextRange};
use html_rewriter::edit::{Edit, EditKind};
use html_rewriter::error::RewriterError;
use html_rewriter::events::{is_event_attribute, EVENT_ATTRIBUTES};
use html_rewriter::plan::match_script_type;
use html_rewriter::rules::{check_rules, RewriteRule, RewriteRuleCallback, RuleAttr};
use html_rewriter::text::{eq_ascii_lowercase, text_eq};
use html_rewriter::visitor::{Visitor, VisitorExternalTool, VisitorExternalToolCallback};

struct Tool {
    log: RefCell<Vec<String>>,
    empty: bool,
    fail: bool,
}

impl Tool {
    fn new() -> Tool {
        Tool { log: RefCell::new(Vec::new()), empty: false, fail: false }
    }
}

impl VisitorExternalToolCallback for Tool {
    fn call(&self, tool: VisitorExternalTool) -> Result<Option<String>, String> {
        self.log.borrow_mut().push(format!("{:?}", tool));
        if self.fail {
            return Err("tool broke".to_string());
        }
        if self.empty {
            return Ok(None);
        }
        Ok(match tool {
            VisitorExternalTool::SetMetaBase(_) | VisitorExternalTool::Log(_) => None,
            VisitorExternalTool::Base64(c) => Some(format!("b64({c})")),
            VisitorExternalTool::RewriteInlineScript { code, module } => {
                Some(format!("js{}({code})", if module { "m" } else { "" }))
            }
            VisitorExternalTool::RewriteJsAttr { attr, code } => Some(format!("{attr}:({code})")),
            VisitorExternalTool::RewriteHttpEquivContent(c) => Some(format!("refresh({c})")),
            VisitorExternalTool::RewriteCss(c) => Some(format!("css({c})")),
            VisitorExternalTool::GetScriptText { found_head } => Some(format!("boot({found_head})")),
        })
    }
}

struct Fixed(Result<Option<&'static str>, &'static str>);

impl RewriteRuleCallback for Fixed {
    fn call(&self, _value: &str) -> Result<Option<String>, String> {
        match self.0 {
            Ok(v) => Ok(v.map(|s| s.to_string())),
            Err(m) => Err(m.to_string()),
        }
    }
}

fn find_from(src: &str, from: usize, needle: &str) -> usize {
    from + src[from..].find(needle).unwrap()
}

fn rng(start: usize, end: usize) -> TextRange {
    TextRange { start, end }
}

/// The `nth` tag named `name` in `src`, with the given attribute keys.
fn tag(src: &str, name: &str, nth: usize, keys: &[&str], closed: bool) -> Tag {
    let mut open = find_from(src, 0, &format!("<{name}"));
    for _ in 0..nth {
        open = find_from(src, open + 1, &format!("<{name}"));
    }
    let open_end = find_from(src, open, ">");
    let mut attributes = Vec::new();
    for key in keys {
        let k = find_from(src, open, &format!(" {key}")) + 1;
        let key_r = rng(k, k + key.len());
        let rest = &src[key_r.end..];
        let value = if rest.starts_with("=\"") {
            let vs = key_r.end + 2;
            let ve = find_from(src, vs, "\"");
            Some(rng(vs, ve))
        } else {
            None
        };
        attributes.push(Attribute { key: key_r, value });
    }
    let (inner, end) = if closed {
        let close = find_from(src, open_end, &format!("</{name}>"));
        (rng(open_end + 1, close), close + name.len() + 2)
    } else {
        (rng(open_end + 1, open_end + 1), open_end)
    };
    let first_raw_child =
        if inner.end > inner.start && !src[inner.start..].starts_with('<') { Some(inner) } else { None };
    Tag { name: rng(open + 1, open + 1 + name.len()), attributes, start: open, end, inner, first_raw_child }
}

fn doc(src: &str, tags: Vec<Tag>) -> Document {
    Document { data: src.as_bytes().to_vec(), tags }
}

fn visitor(d: Document, rules: Vec<RewriteRule<Fixed>>, from_top: bool) -> Visitor<Fixed, Tool> {
    Visitor { rules, external_tool_func: Tool::new(), data: d, from_top }
}

fn run(v: &Visitor<Fixed, Tool>) -> Result<Vec<Edit>, RewriterError> {
    let mut changes = Vec::new();
    v.rewrite(&mut changes).map(|_| changes)
}

fn span_of(r: TextRange) -> Span {
    Span { start: r.start as u32, end: r.end as u32 }
}

fn edit(kind: EditKind, span: Span, name: &str, text: &str) -> Edit {
    Edit { kind, span, name: name.to_string(), text: text.to_string() }
}

fn src_rule(result: Result<Option<&'static str>, &'static str>) -> RewriteRule<Fixed> {
    RewriteRule {
        attrs: vec![RuleAttr { name: "src".to_string(), tags: Some(vec!["script".to_string()]) }],
        func: Fixed(result),
    }
}

#[test]
fn event_attribute_rewritten_and_marked() {
    let src = "<div onclick=\"go()\">x</div>";
    let t = tag(src, "div", 0, &["onclick"], true);
    let span = span_of(t.attributes[0].value.unwrap());
    let v = visitor(doc(src, vec![t]), vec![], false);
    let edits = run(&v).unwrap();
    assert_eq!(
        edits,
        vec![
            edit(EditKind::ReplaceAttr, span, "", "onclick:(go())"),
            edit(EditKind::AddMarkerAttr, span, "onclick", "go()"),
        ]
    );
}

#[test]
fn every_event_name_is_intercepted() {
    for name in EVENT_ATTRIBUTES.iter() {
        let src = format!("<p {name}=\"a\"></p>");
        let t = tag(&src, "p", 0, &[name], true);
        let v = visitor(doc(&src, vec![t]), vec![], false);
        let edits = run(&v).unwrap();
        assert_eq!(edits.len(), 2);
        assert_eq!(edits[0].kind, EditKind::ReplaceAttr);
        assert_eq!(edits[1].kind, EditKind::AddMarkerAttr);
        assert_eq!(edits[0].span, edits[1].span);
    }
    assert_eq!(EVENT_ATTRIBUTES.len(), 100);
}

#[test]
fn empty_event_attribute_is_left_alone() {
    let src = "<div onclick=\"\"></div>";
    let t = tag(src, "div", 0, &["onclick"], true);
    let v = visitor(doc(src, vec![t]), vec![], false);
    assert_eq!(run(&v).unwrap(), vec![]);
}

#[test]
fn event_names_match_exactly() {
    assert!(is_event_attribute("onclick"));
    assert!(is_event_attribute("onscrollsnapchanging"));
    assert!(!is_event_attribute("onClick"));
    assert!(!is_event_attribute("href"));
}

#[test]
fn csp_meta_removed() {
    let src = "<meta http-equiv=\"Content-Security-Policy\" content=\"default-src 'none'\">";
    let t = tag(src, "meta", 0, &["http-equiv", "content"], false);
    let v = visitor(doc(src, vec![t]), vec![], false);
    let edits = run(&v).unwrap();
    assert_eq!(
        edits,
        vec![edit(EditKind::RemoveNode, Span { start: 0, end: src.len() as u32 }, "", "")]
    );
    assert!(v.external_tool_func.log.borrow().is_empty());
}

#[test]
fn csp_meta_removed_without_calls_even_when_tool_fails() {
    let src = "<meta http-equiv=\"CONTENT-SECURITY-POLICY\" content=\"default-src 'none'\">";
    let t = tag(src, "meta", 0, &["http-equiv", "content"], false);
    let mut v = visitor(doc(src, vec![t]), vec![], false);
    v.external_tool_func.fail = true;
    let edits = run(&v).unwrap();
    assert_eq!(edits.len(), 1);
    assert!(v.external_tool_func.log.borrow().is_empty());
}

#[test]
fn only_first_base_reported() {
    let src = "<base href=\"/x/\"><base href=\"/y/\"><style>a</style>";
    let b1 = tag(src, "base", 0, &["href"], false);
    let b2 = tag(src, "base", 1, &["href"], false);
    let s = tag(src, "style", 0, &[], true);
    let v = visitor(doc(src, vec![b1, b2, s]), vec![], true);
    run(&v).unwrap();
    let log = v.external_tool_func.log.borrow();
    assert_eq!(
        *log,
        vec![
            format!("{:?}", VisitorExternalTool::SetMetaBase("/x/".to_string())),
            format!("{:?}", VisitorExternalTool::RewriteCss("a".to_string())),
            format!("{:?}", VisitorExternalTool::GetScriptText { found_head: false }),
        ]
    );
}

#[test]
fn nothing_called_after_failure() {
    let src = "<style>a</style><style>b</style>";
    let s1 = tag(src, "style", 0, &[], true);
    let s2 = tag(src, "style", 1, &[], true);
    let mut v = visitor(doc(src, vec![s1, s2]), vec![], true);
    v.external_tool_func.empty = true;
    assert_eq!(run(&v), Err(RewriterError::ExternalToolEmpty));
    assert_eq!(v.external_tool_func.log.borrow().len(), 1);
}

#[test]
fn csp_meta_removed_in_any_case() {
    let src = "<meta content=\"x\" http-equiv=\"cOnTeNt-SeCuRiTy-PoLiCy\" id=\"a\">";
    let t = tag(src, "meta", 0, &["content", "http-equiv", "id"], false);
    let v = visitor(doc(src, vec![t]), vec![], false);
    let edits = run(&v).unwrap();
    assert_eq!(
        edits,
        vec![edit(EditKind::RemoveNode, Span { start: 0, end: src.len() as u32 }, "", "")]
    );
}

#[test]
fn refresh_meta_content_rewritten() {
    let src = "<meta http-equiv=\"Refresh\" content=\"5; url=/a\">";
    let t = tag(src, "meta", 0, &["http-equiv", "content"], false);
    let span = span_of(t.attributes[1].value.unwrap());
    let v = visitor(doc(src, vec![t]), vec![], false);
    let edits = run(&v).unwrap();
    assert_eq!(edits, vec![edit(EditKind::ReplaceAttr, span, "", "refresh(5; url=/a)")]);
}

#[test]
fn inline_script_marked_and_rewritten() {
    let src = "<script>console.log(1)</script>";
    let t = tag(src, "script", 0, &[], true);
    let name = span_of(t.name);
    let inner = span_of(t.inner);
    let v = visitor(doc(src, vec![t]), vec![], false);
    let edits = run(&v).unwrap();
    assert_eq!(
        edits,
        vec![
            edit(EditKind::AddMarkerAttr, name, "script-source-src", "b64(console.log(1))"),
            edit(EditKind::Replace, inner, "", "js(console.log(1))"),
        ]
    );
}

#[test]
fn module_script_rewritten_as_module() {
    let src = "<script type=\"module\">import a</script>";
    let t = tag(src, "script", 0, &["type"], true);
    let inner = span_of(t.inner);
    let v = visitor(doc(src, vec![t]), vec![], false);
    let edits = run(&v).unwrap();
    assert_eq!(edits[1], edit(EditKind::Replace, inner, "", "jsm(import a)"));
}

#[test]
fn json_script_left_alone() {
    let src = "<script type=\"application/json\">{}</script>";
    let t = tag(src, "script", 0, &["type"], true);
    let v = visitor(doc(src, vec![t]), vec![], false);
    assert_eq!(run(&v).unwrap(), vec![]);
}

#[test]
fn script_types() {
    assert!(match_script_type(None));
    assert!(match_script_type(Some("text/javascript")));
    assert!(match_script_type(Some("application/javascript")));
    assert!(match_script_type(Some("module")));
    assert!(match_script_type(Some("importmap")));
    assert!(!match_script_type(Some("application/json")));
}

#[test]
fn module_src_gets_type_marker() {
    let src = "<script src=\"a.js\" type=\"module\"></script>";
    let t = tag(src, "script", 0, &["src", "type"], true);
    let span = span_of(t.attributes[0].value.unwrap());
    let v = visitor(doc(src, vec![t]), vec![src_rule(Ok(Some("/rewritten/a.js")))], false);
    let edits = run(&v).unwrap();
    assert_eq!(edits, vec![edit(EditKind::ReplaceAttr, span, "", "/rewritten/a.js?type=module")]);
}

#[test]
fn classic_src_has_no_type_marker() {
    let src = "<script src=\"a.js\"></script>";
    let t = tag(src, "script", 0, &["src"], true);
    let span = span_of(t.attributes[0].value.unwrap());
    let v = visitor(doc(src, vec![t]), vec![src_rule(Ok(Some("/r/a.js")))], false);
    assert_eq!(run(&v).unwrap(), vec![edit(EditKind::ReplaceAttr, span, "", "/r/a.js")]);
}

#[test]
fn rule_removal_spans_key_to_value() {
    let src = "<script src=\"a.js\"></script>";
    let t = tag(src, "script", 0, &["src"], true);
    let key = t.attributes[0].key;
    let value = t.attributes[0].value.unwrap();
    let v = visitor(doc(src, vec![t]), vec![src_rule(Ok(None))], false);
    assert_eq!(
        run(&v).unwrap(),
        vec![edit(EditKind::RemoveAttr, span_of(rng(key.start, value.end)), "", "")]
    );
}

#[test]
fn first_matching_rule_wins() {
    let rules = vec![
        RewriteRule { attrs: vec![RuleAttr { name: "href".to_string(), tags: None }], func: Fixed(Ok(Some("x"))) },
        RewriteRule {
            attrs: vec![RuleAttr { name: "src".to_string(), tags: Some(vec!["img".to_string()]) }],
            func: Fixed(Ok(Some("y"))),
        },
        RewriteRule {
            attrs: vec![RuleAttr { name: "src".to_string(), tags: Some(vec!["*".to_string()]) }],
            func: Fixed(Ok(Some("z"))),
        },
    ];
    assert_eq!(check_rules(&rules, "a", "href"), Some(0));
    assert_eq!(check_rules(&rules, "img", "src"), Some(1));
    assert_eq!(check_rules(&rules, "video", "src"), Some(2));
    assert_eq!(check_rules(&rules, "video", "alt"), None);
}

#[test]
fn rule_and_event_both_apply() {
    let src = "<a onclick=\"f()\"></a>";
    let t = tag(src, "a", 0, &["onclick"], true);
    let span = span_of(t.attributes[0].value.unwrap());
    let rules = vec![RewriteRule {
        attrs: vec![RuleAttr { name: "onclick".to_string(), tags: None }],
        func: Fixed(Ok(Some("g()"))),
    }];
    let v = visitor(doc(src, vec![t]), rules, false);
    assert_eq!(
        run(&v).unwrap(),
        vec![
            edit(EditKind::ReplaceAttr, span, "", "g()"),
            edit(EditKind::ReplaceAttr, span, "", "onclick:(f())"),
            edit(EditKind::AddMarkerAttr, span, "onclick", "f()"),
        ]
    );
}

#[test]
fn style_text_rewritten() {
    let src = "<style>a{b:c}</style>";
    let t = tag(src, "style", 0, &[], true);
    let inner = span_of(t.inner);
    let v = visitor(doc(src, vec![t]), vec![], false);
    assert_eq!(run(&v).unwrap(), vec![edit(EditKind::Replace, inner, "", "css(a{b:c})")]);
}

#[test]
fn empty_style_skipped() {
    let src = "<style></style>";
    let t = tag(src, "style", 0, &[], true);
    let v = visitor(doc(src, vec![t]), vec![], false);
    assert_eq!(run(&v).unwrap(), vec![]);
}

#[test]
fn base_reported_before_later_requests() {
    let src = "<base href=\"/x/\"><script>a</script>";
    let b = tag(src, "base", 0, &["href"], false);
    let s = tag(src, "script", 0, &[], true);
    let v = visitor(doc(src, vec![b, s]), vec![], false);
    let edits = run(&v).unwrap();
    assert_eq!(edits.len(), 2);
    let log = v.external_tool_func.log.borrow();
    assert_eq!(log[0], format!("{:?}", VisitorExternalTool::SetMetaBase("/x/".to_string())));
    assert_eq!(log.len(), 3);
}

#[test]
fn no_head_inserts_at_start() {
    let src = "<p>hi</p>";
    let t = tag(src, "p", 0, &[], true);
    let v = visitor(doc(src, vec![t]), vec![], true);
    assert_eq!(run(&v).unwrap(), vec![edit(EditKind::InsertText, Span { start: 0, end: 0 }, "", "boot(false)")]);
}

#[test]
fn head_insert_after_open_tag() {
    let src = "<html><head><title>t</title></head></html>";
    let html = tag(src, "html", 0, &[], true);
    let head = tag(src, "head", 0, &[], true);
    let title = tag(src, "title", 0, &[], true);
    let at = (src.find("<head>").unwrap() + "<head>".len()) as u32;
    let v = visitor(doc(src, vec![html, head, title]), vec![], true);
    let edits = run(&v).unwrap();
    assert_eq!(edits, vec![edit(EditKind::InsertText, Span { start: at, end: at }, "", "boot(true)")]);
}

#[test]
fn nested_pass_inserts_nothing() {
    let src = "<p>hi</p>";
    let t = tag(src, "p", 0, &[], true);
    let v = visitor(doc(src, vec![t]), vec![], false);
    assert_eq!(run(&v).unwrap(), vec![]);
}

#[test]
fn same_input_same_edits() {
    let src = "<head></head><div onload=\"x\"></div><script>y</script><style>z</style>";
    let tags = vec![
        tag(src, "head", 0, &[], true),
        tag(src, "div", 0, &["onload"], true),
        tag(src, "script", 0, &[], true),
        tag(src, "style", 0, &[], true),
    ];
    let v = visitor(doc(src, tags), vec![], true);
    let first = run(&v).unwrap();
    let second = run(&v).unwrap();
    assert_eq!(first, second);
    assert_eq!(first.len(), 6);
}

#[test]
fn invalid_utf8_value_fails() {
    let mut d = doc("<p title=\"ab\"></p>", vec![]);
    d.data[10] = 0xff;
    let t = Tag {
        name: rng(1, 2),
        attributes: vec![Attribute { key: rng(3, 8), value: Some(rng(10, 12)) }],
        start: 0,
        end: 17,
        inner: rng(14, 14),
        first_raw_child: None,
    };
    d.tags.push(t);
    let rules = vec![RewriteRule { attrs: vec![RuleAttr { name: "title".to_string(), tags: None }], func: Fixed(Ok(None)) }];
    let v = visitor(d, rules, true);
    assert_eq!(run(&v), Err(RewriterError::NotUtf8));
    assert!(v.external_tool_func.log.borrow().is_empty());
}

#[test]
fn empty_required_answer_fails() {
    let src = "<style>a</style>";
    let t = tag(src, "style", 0, &[], true);
    let mut v = visitor(doc(src, vec![t]), vec![], false);
    v.external_tool_func.empty = true;
    let mut changes = Vec::new();
    assert_eq!(v.rewrite(&mut changes), Err(RewriterError::ExternalToolEmpty));
    assert!(changes.is_empty());
}

#[test]
fn failing_tool_fails() {
    let src = "<style>a</style>";
    let t = tag(src, "style", 0, &[], true);
    let mut v = visitor(doc(src, vec![t]), vec![], false);
    v.external_tool_func.fail = true;
    assert_eq!(run(&v), Err(RewriterError::ExternalTool("tool broke".to_string())));
}

#[test]
fn failing_rule_fails() {
    let src = "<script src=\"a.js\"></script>";
    let t = tag(src, "script", 0, &["src"], true);
    let v = visitor(doc(src, vec![t]), vec![src_rule(Err("bad"))], false);
    assert_eq!(run(&v), Err(RewriterError::Rewrite("bad".to_string())));
}

#[test]
fn overflowing_offset_fails() {
    assert_eq!(calculate_bounds(rng(0, 1usize << 33)), Err(RewriterError::RangeOverflow));
    assert_eq!(calculate_bounds(rng(3, 9)), Ok(Span { start: 3, end: 9 }));
}

#[test]
fn text_helpers() {
    assert!(text_eq("héllo", "héllo"));
    assert!(!text_eq("hello", "hellO"));
    assert!(eq_ascii_lowercase("ReFrEsH", "refresh"));
    assert!(!eq_ascii_lowercase("refresh!", "refresh"));
}
