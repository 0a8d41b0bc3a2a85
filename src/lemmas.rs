//! Properties of the parser and of the access decision.

use vstd::prelude::*;
use crate::pattern::pattern_matches;
use crate::parser::{
    add_pattern, agents_unique, declare_agent, directive, empty_state, fetch_allowed, find_rule, is_keyword,
    first_blocking, lemma_find_rule_from, parse_doc, rule_allows, scan, step,
    DocModel, ParseState, RuleModel,
};

verus! {

/// A pattern with neither `*` nor `$` matches exactly the paths it is a prefix of.
pub proof fn lemma_plain_pattern_is_prefix(path: Seq<char>, pattern: Seq<char>)
    requires
        !pattern.contains('*'),
        !pattern.contains('$'),
    ensures
        pattern_matches(path, pattern) == pattern.is_prefix_of(path),
{
    if pattern.len() > 0 {
        assert(pattern[pattern.len() - 1] != '$');
    }
}

proof fn lemma_empty_entry_skipped(d: Seq<Seq<char>>, i: int, path: Seq<char>)
    requires
        0 <= i <= d.len(),
    ensures
        first_blocking(d.insert(i, Seq::empty()), path) == first_blocking(d, path),
    decreases i,
{
    let e = d.insert(i, Seq::<char>::empty());
    if i == 0 {
        assert(e.drop_first() == d);
    } else {
        assert(e[0] == d[0]);
        assert(e.drop_first() == d.drop_first().insert(i - 1, Seq::empty()));
        lemma_empty_entry_skipped(d.drop_first(), i - 1, path);
    }
}

/// An empty `Disallow` entry never denies anything: adding one anywhere among
/// a rule's disallowed patterns leaves its verdict on every path as it was.
pub proof fn lemma_empty_disallow_never_denies(r: RuleModel, i: int, path: Seq<char>)
    requires
        0 <= i <= r.disallowed.len(),
    ensures
        rule_allows(
            RuleModel {
                agent: r.agent,
                allowed: r.allowed,
                disallowed: r.disallowed.insert(i, Seq::empty()),
            },
            path,
        ) == rule_allows(r, path),
{
    lemma_empty_entry_skipped(r.disallowed, i, path);
}

/// With no rule for the agent and none for `*`, every path may be fetched.
pub proof fn lemma_no_rule_allows_all(doc: DocModel, agent: Seq<char>, path: Seq<char>)
    requires
        find_rule(doc.rules, agent) is None,
        find_rule(doc.rules, "*"@) is None,
    ensures
        fetch_allowed(doc, agent, path),
{
}

/// Declaring an agent that already has a rule keeps every rule as it was, so
/// the patterns that follow add to what that rule already holds.
pub proof fn lemma_redeclared_agent_accumulates(st: ParseState, agent: Seq<char>)
    requires
        find_rule(st.rules, agent) is Some,
    ensures
        declare_agent(st, agent).rules == st.rules,
        declare_agent(st, agent).active.contains(agent),
{
    if !st.active.contains(agent) {
        assert(st.active.push(agent)[st.active.len() as int] == agent);
    }
}

/// A `Sitemap` directive ends the current group of agents: a `Disallow` that
/// comes right after it changes no rule.
pub proof fn lemma_sitemap_ends_group(st: ParseState, url: Seq<char>, value: Seq<char>)
    ensures
        directive(directive(st, "sitemap"@, url), "disallow"@, value).rules == st.rules,
{
    reveal_strlit("sitemap");
    reveal_strlit("user-agent");
    reveal_strlit("allow");
    reveal_strlit("disallow");
    assert("sitemap"@.len() != "user-agent"@.len());
    assert("sitemap"@.len() != "allow"@.len());
    assert("sitemap"@ != "user-agent"@);
    assert("sitemap"@ != "allow"@);
    assert("sitemap"@ != "disallow"@);
    assert("disallow"@ != "user-agent"@);
    assert("disallow"@ != "allow"@);
    assert(is_keyword("sitemap"@, "sitemap"@));
    assert(is_keyword("disallow"@, "disallow"@));
    let s1 = directive(st, "sitemap"@, url);
    assert(s1.active == Seq::<Seq<char>>::empty());
    let s2 = add_pattern(s1, value, false);
    assert(s2.rules =~= st.rules);
}

proof fn lemma_step_keeps_agents_unique(st: ParseState, raw: Seq<char>)
    requires
        agents_unique(st.rules),
    ensures
        agents_unique(step(st, raw).rules),
{
    let r = step(st, raw);
    if r.rules != st.rules {
        lemma_find_rule_from(st.rules, r.rules.last().agent, 0);
        assert forall|i: int, j: int|
            0 <= i < r.rules.len() && 0 <= j < r.rules.len() && i != j implies r.rules[i].agent
            != r.rules[j].agent by {
            if r.rules.len() == st.rules.len() {
                assert(r.rules[i].agent == st.rules[i].agent);
                assert(r.rules[j].agent == st.rules[j].agent);
            } else {
                if i < st.rules.len() {
                    assert(r.rules[i] == st.rules[i]);
                }
                if j < st.rules.len() {
                    assert(r.rules[j] == st.rules[j]);
                }
            }
        }
    }
}

proof fn lemma_scan_keeps_agents_unique(t: Seq<char>, start: int, i: int, st: ParseState)
    requires
        agents_unique(st.rules),
    ensures
        agents_unique(scan(t, start, i, st).rules),
    decreases t.len() - i,
{
    if i < t.len() {
        if t[i] == '\n' {
            lemma_step_keeps_agents_unique(st, t.subrange(start, i));
            lemma_scan_keeps_agents_unique(t, i + 1, i + 1, step(st, t.subrange(start, i)));
        } else {
            lemma_scan_keeps_agents_unique(t, start, i + 1, st);
        }
    } else {
        lemma_step_keeps_agents_unique(st, t.subrange(start, t.len() as int));
    }
}

/// Every agent token has one rule at most in a parsed document: declaring an
/// agent again adds to its rule instead of making another.
pub proof fn lemma_parsed_agents_unique(text: Seq<char>, domain: Option<Seq<char>>)
    ensures
        agents_unique(parse_doc(text, domain).rules),
{
    lemma_scan_keeps_agents_unique(text, 0, 0, empty_state());
}

} // verus!
