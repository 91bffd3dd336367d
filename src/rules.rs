use crate::text::text_eq;
use vstd::prelude::*;

verus! {

/// A rule's callback: given an attribute value, returns its replacement, or
/// `None` to remove the attribute, or fails with a message.
pub trait RewriteRuleCallback {
    fn call(&self, value: &str) -> Result<Option<String>, String>;
}

/// One attribute a rule owns, and the tags it owns it on: all tags where
/// `tags` is `None`, else the listed tag names (`"*"` matches any tag).
#[derive(Clone, Debug)]
pub struct RuleAttr {
    pub name: String,
    pub tags: Option<Vec<String>>,
}

/// An attribute-rewrite rule.
pub struct RewriteRule<F> {
    pub attrs: Vec<RuleAttr>,
    pub func: F,
}

/// Whether a tag-name pattern matches a tag name.
pub open spec fn pattern_hits(pattern: Seq<char>, tag: Seq<char>) -> bool {
    pattern == tag || pattern == "*"@
}

/// Whether a tag-pattern set admits a tag name.
pub open spec fn admits(tags: Option<Vec<String>>, tag: Seq<char>) -> bool {
    match tags {
        None => true,
        Some(v) => exists|k: int| 0 <= k < v@.len() && #[trigger] pattern_hits(v@[k]@, tag),
    }
}

/// Index of the first of the first `n` entries that names `attr`.
pub open spec fn first_entry(attrs: Seq<RuleAttr>, attr: Seq<char>, n: int) -> Option<int>
    decreases n,
{
    if n <= 0 {
        None
    } else {
        match first_entry(attrs, attr, n - 1) {
            Some(j) => Some(j),
            None => if attrs[n - 1].name@ == attr { Some(n - 1) } else { None },
        }
    }
}

/// Whether a rule applies to attribute `attr` on tag `tag`.
pub open spec fn rule_applies<F>(rule: RewriteRule<F>, tag: Seq<char>, attr: Seq<char>) -> bool {
    match first_entry(rule.attrs@, attr, rule.attrs@.len() as int) {
        Some(j) => admits(rule.attrs@[j].tags, tag),
        None => false,
    }
}

/// Index of the first of the first `n` rules that applies.
pub open spec fn first_rule<F>(rules: Seq<RewriteRule<F>>, tag: Seq<char>, attr: Seq<char>, n: int) -> Option<int>
    decreases n,
{
    if n <= 0 {
        None
    } else {
        match first_rule(rules, tag, attr, n - 1) {
            Some(i) => Some(i),
            None => if rule_applies(rules[n - 1], tag, attr) { Some(n - 1) } else { None },
        }
    }
}

/// The rule that owns `attr` on `tag`: the first that applies.
pub open spec fn owning_rule<F>(rules: Seq<RewriteRule<F>>, tag: Seq<char>, attr: Seq<char>) -> Option<int> {
    first_rule(rules, tag, attr, rules.len() as int)
}

proof fn lemma_first_entry_bound(attrs: Seq<RuleAttr>, attr: Seq<char>, n: int)
    ensures
        first_entry(attrs, attr, n) is Some ==> 0 <= first_entry(attrs, attr, n)->Some_0 < n,
    decreases n,
{
    if n > 0 {
        lemma_first_entry_bound(attrs, attr, n - 1);
    }
}

proof fn lemma_first_entry_stable(attrs: Seq<RuleAttr>, attr: Seq<char>, n: int, m: int)
    requires
        n <= m,
        first_entry(attrs, attr, n) is Some,
    ensures
        first_entry(attrs, attr, m) == first_entry(attrs, attr, n),
    decreases m - n,
{
    if n < m {
        lemma_first_entry_stable(attrs, attr, n, m - 1);
    }
}

proof fn lemma_first_rule_stable<F>(rules: Seq<RewriteRule<F>>, tag: Seq<char>, attr: Seq<char>, n: int, m: int)
    requires
        n <= m,
        first_rule(rules, tag, attr, n) is Some,
    ensures
        first_rule(rules, tag, attr, m) == first_rule(rules, tag, attr, n),
    decreases m - n,
{
    if n < m {
        lemma_first_rule_stable(rules, tag, attr, n, m - 1);
    }
}

proof fn lemma_first_rule_bound<F>(rules: Seq<RewriteRule<F>>, tag: Seq<char>, attr: Seq<char>, n: int)
    ensures
        first_rule(rules, tag, attr, n) is Some ==> 0 <= first_rule(rules, tag, attr, n)->Some_0 < n,
    decreases n,
{
    if n > 0 {
        lemma_first_rule_bound(rules, tag, attr, n - 1);
    }
}

fn any_pattern_hits(v: &Vec<String>, tag: &str) -> (r: bool)
    ensures
        r == exists|k: int| 0 <= k < v@.len() && #[trigger] pattern_hits(v@[k]@, tag@),
{
    let mut k: usize = 0;
    while k < v.len()
        invariant
            k <= v@.len(),
            forall|m: int| 0 <= m < k ==> !#[trigger] pattern_hits(v@[m]@, tag@),
        decreases v@.len() - k,
    {
        if text_eq(v[k].as_str(), tag) || text_eq(v[k].as_str(), "*") {
            assert(pattern_hits(v@[k as int]@, tag@));
            return true;
        }
        k = k + 1;
    }
    false
}

fn tags_admit(tags: &Option<Vec<String>>, tag: &str) -> (r: bool)
    ensures
        r == admits(*tags, tag@),
{
    match tags {
        None => true,
        Some(v) => any_pattern_hits(v, tag),
    }
}

fn applies<F>(rule: &RewriteRule<F>, tag: &str, attr: &str) -> (r: bool)
    ensures
        r == rule_applies(*rule, tag@, attr@),
{
    let mut j: usize = 0;
    while j < rule.attrs.len()
        invariant
            j <= rule.attrs@.len(),
            first_entry(rule.attrs@, attr@, j as int) is None,
        decreases rule.attrs@.len() - j,
    {
        if text_eq(rule.attrs[j].name.as_str(), attr) {
            proof {
                lemma_first_entry_stable(rule.attrs@, attr@, j + 1, rule.attrs@.len() as int);
            }
            return tags_admit(&rule.attrs[j].tags, tag);
        }
        j = j + 1;
    }
    false
}

/// Finds the rule that owns attribute `attr` on tag `tag`: the first rule
/// whose attribute map names `attr` with a tag set admitting `tag`.
pub fn check_rules<F>(rules: &Vec<RewriteRule<F>>, tag: &str, attr: &str) -> (r: Option<usize>)
    ensures
        r is Some == owning_rule(rules@, tag@, attr@) is Some,
        r is Some ==> r->Some_0 == owning_rule(rules@, tag@, attr@)->Some_0,
        r is Some ==> r->Some_0 < rules@.len(),
{
    proof {
        lemma_first_rule_bound(rules@, tag@, attr@, rules@.len() as int);
    }
    let mut i: usize = 0;
    while i < rules.len()
        invariant
            i <= rules@.len(),
            first_rule(rules@, tag@, attr@, i as int) is None,
        decreases rules@.len() - i,
    {
        if applies(&rules[i], tag, attr) {
            proof {
                lemma_first_rule_stable(rules@, tag@, attr@, i + 1, rules@.len() as int);
            }
            return Some(i);
        }
        i = i + 1;
    }
    None
}

} // verus!
