//! The document model, the line-by-line parser and the access decision.

use vstd::prelude::*;
use vstd::utf8::encode_utf8;
use crate::pattern::{matches_chars, pattern_matches};
use crate::text::{
    chars_of, find_char, index_of, lemma_index_of_from_bounds, lower_of, string_of, to_lower,
    trim, trim_chars,
};

verus! {

/// The directives collected for one agent token.
pub struct RuleModel {
    pub agent: Seq<char>,
    pub allowed: Seq<Seq<char>>,
    pub disallowed: Seq<Seq<char>>,
}

/// A parsed document: its source label, one rule per agent token in order of
/// first appearance, the sitemap URLs and the comments.
pub struct DocModel {
    pub domain: Option<Seq<char>>,
    pub rules: Seq<RuleModel>,
    pub sitemaps: Seq<Seq<char>>,
    pub comments: Seq<Seq<char>>,
}

/// What the parser carries from one line to the next: the document so far and
/// the agents that `Allow` and `Disallow` lines currently apply to.
pub struct ParseState {
    pub rules: Seq<RuleModel>,
    pub sitemaps: Seq<Seq<char>>,
    pub comments: Seq<Seq<char>>,
    pub active: Seq<Seq<char>>,
}

pub open spec fn strings_view(v: Seq<String>) -> Seq<Seq<char>> {
    v.map_values(|s: String| s@)
}

pub open spec fn rules_view(v: Seq<RobotRule>) -> Seq<RuleModel> {
    v.map_values(|r: RobotRule| r@)
}

/// A rule for a specific user-agent containing allowed and disallowed paths.
#[derive(Debug, Clone)]
pub struct RobotRule {
    /// The lowercase agent token this rule applies to (e.g. "googlebot", "*").
    pub user_agent: String,
    /// Patterns explicitly allowed for this agent, in document order.
    pub allowed: Vec<String>,
    /// Patterns disallowed for this agent, in document order.
    pub disallowed: Vec<String>,
}

impl View for RobotRule {
    type V = RuleModel;

    open spec fn view(&self) -> RuleModel {
        RuleModel {
            agent: self.user_agent@,
            allowed: strings_view(self.allowed@),
            disallowed: strings_view(self.disallowed@),
        }
    }
}

/// The first index at or after `i` of a rule for `agent`.
pub open spec fn find_rule_from(rules: Seq<RuleModel>, agent: Seq<char>, i: int) -> Option<int>
    decreases rules.len() - i,
{
    if 0 <= i < rules.len() {
        if rules[i].agent == agent {
            Some(i)
        } else {
            find_rule_from(rules, agent, i + 1)
        }
    } else {
        None
    }
}

/// The index of the rule for `agent`, if there is one.
pub open spec fn find_rule(rules: Seq<RuleModel>, agent: Seq<char>) -> Option<int> {
    find_rule_from(rules, agent, 0)
}

pub proof fn lemma_find_rule_from(rules: Seq<RuleModel>, agent: Seq<char>, i: int)
    requires
        0 <= i,
    ensures
        find_rule_from(rules, agent, i) matches Some(k) ==> i <= k < rules.len() && rules[k].agent
            == agent,
        find_rule_from(rules, agent, i) is None ==> forall|k: int|
            i <= k < rules.len() ==> #[trigger] rules[k].agent != agent,
    decreases rules.len() - i,
{
    if 0 <= i < rules.len() && rules[i].agent != agent {
        lemma_find_rule_from(rules, agent, i + 1);
    }
}

/// Whether no two rules share an agent token.
pub open spec fn agents_unique(rules: Seq<RuleModel>) -> bool {
    forall|i: int, j: int|
        0 <= i < rules.len() && 0 <= j < rules.len() && i != j ==> rules[i].agent
            != rules[j].agent
}

/// `r` with `value` appended to its allowed (or disallowed) patterns when
/// its agent is one of `active`.
pub open spec fn with_pattern(
    r: RuleModel,
    active: Seq<Seq<char>>,
    value: Seq<char>,
    allow: bool,
) -> RuleModel {
    if !active.contains(r.agent) {
        r
    } else if allow {
        RuleModel { agent: r.agent, allowed: r.allowed.push(value), disallowed: r.disallowed }
    } else {
        RuleModel { agent: r.agent, allowed: r.allowed, disallowed: r.disallowed.push(value) }
    }
}

pub open spec fn empty_state() -> ParseState {
    ParseState {
        rules: Seq::empty(),
        sitemaps: Seq::empty(),
        comments: Seq::empty(),
        active: Seq::empty(),
    }
}

/// The effect of a `User-agent` line naming `agent` (already lowercased).
pub open spec fn declare_agent(st: ParseState, agent: Seq<char>) -> ParseState {
    ParseState {
        rules: if find_rule(st.rules, agent) is Some {
            st.rules
        } else {
            st.rules.push(RuleModel { agent, allowed: Seq::empty(), disallowed: Seq::empty() })
        },
        sitemaps: st.sitemaps,
        comments: st.comments,
        active: if st.active.contains(agent) {
            st.active
        } else {
            st.active.push(agent)
        },
    }
}

/// The effect of an `Allow` (or `Disallow`) line with `value`.
pub open spec fn add_pattern(st: ParseState, value: Seq<char>, allow: bool) -> ParseState {
    ParseState {
        rules: st.rules.map_values(|r: RuleModel| with_pattern(r, st.active, value, allow)),
        sitemaps: st.sitemaps,
        comments: st.comments,
        active: st.active,
    }
}

/// Whether `a` is `b`, or `b` is a lowercase ASCII letter and `a` its capital.
pub open spec fn same_letter(a: char, b: char) -> bool {
    a == b || ('a' <= b && b <= 'z' && a as u32 + 32 == b as u32)
}

/// Whether `name` spells the lowercase keyword `word` with any case of its
/// ASCII letters. For the keywords of this format this is the same as
/// comparing the full Unicode lowercase form of `name` with `word`.
pub open spec fn is_keyword(name: Seq<char>, word: Seq<char>) -> bool {
    name.len() == word.len() && forall|i: int|
        0 <= i < name.len() ==> #[trigger] same_letter(name[i], word[i])
}

/// The effect of one directive, with its name and value trimmed.
pub open spec fn directive(st: ParseState, name: Seq<char>, value: Seq<char>) -> ParseState {
    if is_keyword(name, "user-agent"@) {
        declare_agent(st, lower_of(value))
    } else if is_keyword(name, "allow"@) {
        add_pattern(st, value, true)
    } else if is_keyword(name, "disallow"@) {
        add_pattern(st, value, false)
    } else if is_keyword(name, "sitemap"@) {
        ParseState {
            rules: st.rules,
            sitemaps: st.sitemaps.push(value),
            comments: st.comments,
            active: Seq::empty(),
        }
    } else {
        st
    }
}

/// The effect of one line of text.
///
/// Once trimmed, a line that starts with `#` is a comment; any other line
/// without a `:` is skipped (an empty line among them); the rest is a
/// directive, split at its first `:`.
pub open spec fn step(st: ParseState, raw: Seq<char>) -> ParseState {
    let line = trim(raw);
    if line.len() > 0 && line[0] == '#' {
        ParseState {
            rules: st.rules,
            sitemaps: st.sitemaps,
            comments: st.comments.push(trim(line.drop_first())),
            active: st.active,
        }
    } else {
        match index_of(line, ':') {
            None => st,
            Some(k) => directive(st, trim(line.take(k)), trim(line.skip(k + 1))),
        }
    }
}

/// The state after the lines of `t` from the one that starts at `start`, when
/// the scan for its end has reached `i`. Lines end at each `\n`.
pub open spec fn scan(t: Seq<char>, start: int, i: int, st: ParseState) -> ParseState
    decreases t.len() - i,
{
    if i < t.len() {
        if t[i] == '\n' {
            scan(t, i + 1, i + 1, step(st, t.subrange(start, i)))
        } else {
            scan(t, start, i + 1, st)
        }
    } else {
        step(st, t.subrange(start, t.len() as int))
    }
}

/// The document that `text` describes, with `domain` as its source label.
pub open spec fn parse_doc(text: Seq<char>, domain: Option<Seq<char>>) -> DocModel {
    let st = scan(text, 0, 0, empty_state());
    DocModel { domain, rules: st.rules, sitemaps: st.sitemaps, comments: st.comments }
}

/// The length in bytes of the UTF-8 encoding of `s`, as `str::len` reports it.
pub open spec fn byte_len(s: Seq<char>) -> usize {
    encode_utf8(s).len() as usize
}

/// The first non-empty pattern of `disallowed` that `path` matches.
pub open spec fn first_blocking(disallowed: Seq<Seq<char>>, path: Seq<char>) -> Option<Seq<char>>
    decreases disallowed.len(),
{
    if disallowed.len() == 0 {
        None
    } else if disallowed[0].len() > 0 && pattern_matches(path, disallowed[0]) {
        Some(disallowed[0])
    } else {
        first_blocking(disallowed.drop_first(), path)
    }
}

/// Whether some allowed pattern matches `path` and is longer, in bytes, than `d`.
pub open spec fn allow_outranks(allowed: Seq<Seq<char>>, path: Seq<char>, d: Seq<char>) -> bool {
    exists|k: int|
        0 <= k < allowed.len() && #[trigger] pattern_matches(path, allowed[k]) && byte_len(
            allowed[k],
        ) > byte_len(d)
}

/// Whether some allowed pattern matches `path`.
pub open spec fn some_allow_matches(allowed: Seq<Seq<char>>, path: Seq<char>) -> bool {
    exists|k: int| 0 <= k < allowed.len() && #[trigger] pattern_matches(path, allowed[k])
}

/// The verdict of one rule on `path`.
///
/// The first non-empty disallowed pattern that matches denies the path,
/// unless a longer allowed pattern matches too. With no such pattern the path
/// is allowed when there are no allowed patterns or one of them matches.
pub open spec fn rule_allows(r: RuleModel, path: Seq<char>) -> bool {
    match first_blocking(r.disallowed, path) {
        Some(d) => allow_outranks(r.allowed, path, d),
        None => r.allowed.len() == 0 || some_allow_matches(r.allowed, path),
    }
}

/// The rule that applies to `agent` (already lowercased): its own, else the
/// one for `*`, else none.
pub open spec fn select_rule(rules: Seq<RuleModel>, agent: Seq<char>) -> Option<RuleModel> {
    match find_rule(rules, agent) {
        Some(i) => Some(rules[i]),
        None => match find_rule(rules, "*"@) {
            Some(i) => Some(rules[i]),
            None => None,
        },
    }
}

/// Whether `doc` lets `agent` (already lowercased) fetch `path`: with no rule
/// that applies, everything is allowed.
pub open spec fn fetch_allowed(doc: DocModel, agent: Seq<char>, path: Seq<char>) -> bool {
    match select_rule(doc.rules, agent) {
        Some(r) => rule_allows(r, path),
        None => true,
    }
}

/// The parser's working state.
struct Builder {
    rules: Vec<RobotRule>,
    sitemaps: Vec<String>,
    comments: Vec<String>,
    active: Vec<String>,
}

impl View for Builder {
    type V = ParseState;

    closed spec fn view(&self) -> ParseState {
        ParseState {
            rules: rules_view(self.rules@),
            sitemaps: strings_view(self.sitemaps@),
            comments: strings_view(self.comments@),
            active: strings_view(self.active@),
        }
    }
}

/// Whether `name` spells the lowercase keyword `word`, ignoring ASCII case.
fn keyword_is(name: &[char], word: &str) -> (r: bool)
    ensures
        r == is_keyword(name@, word@),
{
    let w = chars_of(word);
    let n = name.len();
    if n != w.len() {
        return false;
    }
    let mut i: usize = 0;
    while i < n
        invariant
            i <= n,
            n == name@.len(),
            n == w@.len(),
            w@ == word@,
            forall|k: int| 0 <= k < i ==> #[trigger] same_letter(name@[k], w@[k]),
        decreases n - i,
    {
        let a = name[i];
        let b = w[i];
        if !(a == b || ('a' <= b && b <= 'z' && a as u32 == b as u32 - 32)) {
            assert(!same_letter(name@[i as int], w@[i as int]));
            return false;
        }
        i = i + 1;
    }
    true
}

/// Whether `v` holds a string equal to `s`.
fn contains_string(v: &Vec<String>, s: &String) -> (r: bool)
    ensures
        r == strings_view(v@).contains(s@),
{
    let n = v.len();
    let mut i: usize = 0;
    while i < n
        invariant
            i <= n,
            n == v@.len(),
            forall|k: int| 0 <= k < i ==> v@[k]@ != s@,
        decreases n - i,
    {
        if v[i] == *s {
            assert(strings_view(v@)[i as int] == s@);
            return true;
        }
        i = i + 1;
    }
    proof {
        if strings_view(v@).contains(s@) {
            let k = choose|k: int| 0 <= k < strings_view(v@).len() && strings_view(v@)[k] == s@;
            assert(v@[k]@ == s@);
        }
    }
    false
}

/// The index of the rule for `agent` in `rules`, if any.
fn rule_position(rules: &Vec<RobotRule>, agent: &String) -> (r: Option<usize>)
    ensures
        r matches Some(k) ==> find_rule(rules_view(rules@), agent@) == Some(k as int),
        r is None ==> find_rule(rules_view(rules@), agent@) is None,
        r matches Some(k) ==> k < rules@.len(),
{
    proof {
        lemma_find_rule_from(rules_view(rules@), agent@, 0);
    }
    let ghost rv = rules_view(rules@);
    let n = rules.len();
    let mut i: usize = 0;
    while i < n
        invariant
            i <= n,
            n == rules@.len(),
            rv == rules_view(rules@),
            find_rule_from(rv, agent@, i as int) == find_rule_from(rv, agent@, 0),
        decreases n - i,
    {
        assert(rv[i as int] == rules@[i as int]@);
        if rules[i].user_agent == *agent {
            return Some(i);
        }
        i = i + 1;
    }
    None
}

/// Whether an allowed pattern of `rule` matches `path` and is longer than `d`.
fn outranks(rule: &RobotRule, path: &[char], d: &String) -> (r: bool)
    ensures
        r == allow_outranks(rule@.allowed, path@, d@),
{
    let ghost av = rule@.allowed;
    let n = rule.allowed.len();
    let dlen = d.as_str().len();
    let mut k: usize = 0;
    while k < n
        invariant
            k <= n,
            n == rule.allowed@.len(),
            av == rule@.allowed,
            dlen == byte_len(d@),
            forall|j: int|
                0 <= j < k ==> !(#[trigger] pattern_matches(path@, av[j]) && byte_len(av[j])
                    > byte_len(d@)),
        decreases n - k,
    {
        let a = &rule.allowed[k];
        assert(av[k as int] == a@);
        let q = chars_of(a.as_str());
        if matches_chars(path, q.as_slice()) && a.as_str().len() > dlen {
            return true;
        }
        k = k + 1;
    }
    false
}

/// Whether some allowed pattern of `rule` matches `path`.
fn any_allow(rule: &RobotRule, path: &[char]) -> (r: bool)
    ensures
        r == some_allow_matches(rule@.allowed, path@),
{
    let ghost av = rule@.allowed;
    let n = rule.allowed.len();
    let mut k: usize = 0;
    while k < n
        invariant
            k <= n,
            n == rule.allowed@.len(),
            av == rule@.allowed,
            forall|j: int| 0 <= j < k ==> !#[trigger] pattern_matches(path@, av[j]),
        decreases n - k,
    {
        let a = &rule.allowed[k];
        assert(av[k as int] == a@);
        let q = chars_of(a.as_str());
        if matches_chars(path, q.as_slice()) {
            return true;
        }
        k = k + 1;
    }
    false
}

/// The verdict of `rule` on `path`.
fn verdict(rule: &RobotRule, path: &[char]) -> (r: bool)
    ensures
        r == rule_allows(rule@, path@),
{
    let ghost dv = rule@.disallowed;
    let n = rule.disallowed.len();
    let mut i: usize = 0;
    assert(dv.subrange(0, n as int) == dv);
    while i < n
        invariant
            i <= n,
            n == rule.disallowed@.len(),
            dv == rule@.disallowed,
            first_blocking(dv, path@) == first_blocking(dv.subrange(i as int, n as int), path@),
        decreases n - i,
    {
        let d = &rule.disallowed[i];
        let ghost rest = dv.subrange(i as int, n as int);
        assert(rest[0] == d@);
        assert(rest.drop_first() == dv.subrange(i + 1, n as int));
        let q = chars_of(d.as_str());
        if q.len() > 0 && matches_chars(path, q.as_slice()) {
            return outranks(rule, path, d);
        }
        i = i + 1;
    }
    assert(dv.subrange(n as int, n as int).len() == 0);
    if rule.allowed.len() == 0 {
        return true;
    }
    any_allow(rule, path)
}

impl Builder {
    fn new() -> (r: Builder)
        ensures
            r@ == empty_state(),
    {
        let r = Builder {
            rules: Vec::new(),
            sitemaps: Vec::new(),
            comments: Vec::new(),
            active: Vec::new(),
        };
        assert(r@.rules == Seq::<RuleModel>::empty());
        assert(r@.sitemaps == Seq::<Seq<char>>::empty());
        assert(r@.comments == Seq::<Seq<char>>::empty());
        assert(r@.active == Seq::<Seq<char>>::empty());
        r
    }
    /// A `User-agent` line naming `agent`.
    fn declare(&mut self, agent: String)
        ensures
            final(self)@ == declare_agent(old(self)@, agent@),
    {
        let ghost st = self@;
        if rule_position(&self.rules, &agent).is_none() {
            let rule = RobotRule {
                user_agent: agent.clone(),
                allowed: Vec::new(),
                disallowed: Vec::new(),
            };
            assert(rule@.allowed == Seq::<Seq<char>>::empty());
            assert(rule@.disallowed == Seq::<Seq<char>>::empty());
            self.rules.push(rule);
            assert(rules_view(self.rules@) == st.rules.push(rule@));
        }
        if !contains_string(&self.active, &agent) {
            self.active.push(agent);
            assert(strings_view(self.active@) == st.active.push(agent@));
        }
    }

    /// An `Allow` (or `Disallow`) line with `value`.
    fn add(&mut self, value: &String, allow: bool)
        ensures
            final(self)@ == add_pattern(old(self)@, value@, allow),
    {
        let ghost st = self@;
        let ghost target = st.rules.map_values(
            |r: RuleModel| with_pattern(r, st.active, value@, allow),
        );
        let n = self.rules.len();
        let mut j: usize = 0;
        while j < n
            invariant
                j <= n,
                n == self.rules@.len(),
                n == st.rules.len(),
                self.sitemaps == old(self).sitemaps,
                self.comments == old(self).comments,
                self.active == old(self).active,
                st == old(self)@,
                target == st.rules.map_values(
                    |r: RuleModel| with_pattern(r, st.active, value@, allow),
                ),
                forall|k: int| 0 <= k < j ==> #[trigger] self.rules@[k]@ == target[k],
                forall|k: int| j <= k < n ==> #[trigger] self.rules@[k]@ == st.rules[k],
            decreases n - j,
        {
            let ghost old_rule = self.rules@[j as int];
            assert(old_rule@ == st.rules[j as int]);
            assert(strings_view(self.active@) == st.active);
            if contains_string(&self.active, &self.rules[j].user_agent) {
                let copy = value.clone();
                if allow {
                    self.rules[j].allowed.push(copy);
                    assert(self.rules@[j as int].allowed@ == old_rule.allowed@.push(copy));
                    assert(strings_view(self.rules@[j as int].allowed@) =~= strings_view(
                        old_rule.allowed@,
                    ).push(value@));
                } else {
                    self.rules[j].disallowed.push(copy);
                    assert(self.rules@[j as int].disallowed@ == old_rule.disallowed@.push(copy));
                    assert(strings_view(self.rules@[j as int].disallowed@) =~= strings_view(
                        old_rule.disallowed@,
                    ).push(value@));
                }
                assert(self.rules@[j as int]@ == target[j as int]);
            }
            j = j + 1;
        }
        assert(rules_view(self.rules@) =~= target);
    }

    /// One line of text.
    fn take_line(&mut self, raw: &[char])
        ensures
            final(self)@ == step(old(self)@, raw@),
    {
        let line = trim_chars(raw);
        let n = line.len();
        if n > 0 && line[0] == '#' {
            let body = trim_chars(&line[1..n]);
            assert(line@.subrange(1, n as int) == line@.drop_first());
            let ghost st = self@;
            self.comments.push(string_of(body));
            assert(strings_view(self.comments@) == st.comments.push(body@));
            return;
        }
        match find_char(line, ':') {
            None => {},
            Some(k) => {
                proof {
                    lemma_index_of_from_bounds(line@, ':', 0);
                }
                assert(line@.subrange(0, k as int) == line@.take(k as int));
                assert(line@.subrange(k + 1, n as int) == line@.skip(k + 1));
                let name = trim_chars(&line[0..k]);
                let value = string_of(trim_chars(&line[k + 1..n]));
                if keyword_is(name, "user-agent") {
                    let agent = to_lower(value.as_str());
                    self.declare(agent);
                } else if keyword_is(name, "allow") {
                    self.add(&value, true);
                } else if keyword_is(name, "disallow") {
                    self.add(&value, false);
                } else if keyword_is(name, "sitemap") {
                    self.sitemaps.push(value);
                    self.active.clear();
                    assert(self@.sitemaps == old(self)@.sitemaps.push(value@));
                    assert(self@.active == Seq::<Seq<char>>::empty());
                }
            },
        }
    }
}

pub open spec fn opt_view(o: Option<String>) -> Option<Seq<char>> {
    match o {
        Some(s) => Some(s@),
        None => None,
    }
}

/// A parsed robots exclusion document.
#[derive(Debug)]
pub struct RobotsTxt {
    domain: Option<String>,
    rules: Vec<RobotRule>,
    sitemaps: Vec<String>,
    comments: Vec<String>,
}

impl View for RobotsTxt {
    type V = DocModel;

    closed spec fn view(&self) -> DocModel {
        DocModel {
            domain: opt_view(self.domain),
            rules: rules_view(self.rules@),
            sitemaps: strings_view(self.sitemaps@),
            comments: strings_view(self.comments@),
        }
    }
}

impl RobotsTxt {
    /// Parses a robots exclusion document, with no source label.
    pub fn parse(content: &str) -> (r: Self)
        ensures
            r@ == parse_doc(content@, None),
            agents_unique(r@.rules),
    {
        Self::parse_with_domain(content, None)
    }

    /// Parses a robots exclusion document and labels it with `domain`.
    ///
    /// Parsing never fails: lines that are neither comments nor directives of
    /// a known name are skipped.
    pub fn parse_with_domain(content: &str, domain: Option<String>) -> (r: Self)
        ensures
            r@ == parse_doc(content@, opt_view(domain)),
            agents_unique(r@.rules),
    {
        let t = chars_of(content);
        let n = t.len();
        let mut b = Builder::new();
        let mut start: usize = 0;
        let mut i: usize = 0;
        while i < n
            invariant
                start <= i <= n,
                n == t@.len(),
                t@ == content@,
                scan(t@, 0, 0, empty_state()) == scan(t@, start as int, i as int, b@),
            decreases n - i,
        {
            if t[i] == '\n' {
                b.take_line(&t[start..i]);
                start = i + 1;
            }
            i = i + 1;
        }
        b.take_line(&t[start..n]);
        let ghost st = b@;
        let r = RobotsTxt {
            domain,
            rules: b.rules,
            sitemaps: b.sitemaps,
            comments: b.comments,
        };
        assert(r@.rules == st.rules && r@.sitemaps == st.sitemaps && r@.comments == st.comments);
        proof {
            crate::lemmas::lemma_parsed_agents_unique(content@, opt_view(domain));
        }
        r
    }
    /// Whether `user_agent` may fetch `path`.
    ///
    /// The agent is lowercased; its own rule applies, else the rule for `*`,
    /// else nothing restricts it.
    pub fn can_fetch(&self, user_agent: &str, path: &str) -> (r: bool)
        ensures
            r == fetch_allowed(self@, lower_of(user_agent@), path@),
    {
        let agent = to_lower(user_agent);
        self.allows(agent.as_str(), path)
    }

    /// Whether the agent token `agent` (already lowercase) may fetch `path`.
    pub fn allows(&self, agent: &str, path: &str) -> (r: bool)
        ensures
            r == fetch_allowed(self@, agent@, path@),
    {
        match self.rule_for(agent) {
            Some(rule) => {
                let p = chars_of(path);
                verdict(rule, p.as_slice())
            },
            None => true,
        }
    }

    /// The rule that applies to the agent token `agent` (already lowercase):
    /// its own, else the rule for `*`.
    pub fn rule_for(&self, agent: &str) -> (r: Option<&RobotRule>)
        ensures
            match r {
                Some(rule) => select_rule(self@.rules, agent@) == Some(rule@),
                None => select_rule(self@.rules, agent@) is None,
            },
    {
        let token = agent.to_owned();
        let idx = match rule_position(&self.rules, &token) {
            Some(k) => k,
            None => {
                let star = "*".to_owned();
                match rule_position(&self.rules, &star) {
                    Some(k) => k,
                    None => {
                        return None;
                    },
                }
            },
        };
        assert(self@.rules[idx as int] == self.rules@[idx as int]@);
        Some(&self.rules[idx])
    }

    /// The source label given at parse time, if any.
    pub fn get_domain(&self) -> (r: Option<&str>)
        ensures
            match r {
                Some(d) => self@.domain == Some(d@),
                None => self@.domain is None,
            },
    {
        match &self.domain {
            Some(d) => Some(d.as_str()),
            None => None,
        }
    }

    /// The sitemap URLs, in document order.
    pub fn get_sitemaps(&self) -> (r: &[String])
        ensures
            strings_view(r@) == self@.sitemaps,
    {
        self.sitemaps.as_slice()
    }

    /// The comments (the text after `#`, trimmed), in document order.
    pub fn get_comments(&self) -> (r: &[String])
        ensures
            strings_view(r@) == self@.comments,
    {
        self.comments.as_slice()
    }

    /// Every rule, one per agent token, in order of first appearance.
    pub fn get_rules(&self) -> (r: &[RobotRule])
        ensures
            rules_view(r@) == self@.rules,
    {
        self.rules.as_slice()
    }

    /// The rule that applies to `user_agent`: its own (after lowercasing),
    /// else the rule for `*`.
    pub fn get_rule(&self, user_agent: &str) -> (r: Option<&RobotRule>)
        ensures
            match r {
                Some(rule) => select_rule(self@.rules, lower_of(user_agent@)) == Some(rule@),
                None => select_rule(self@.rules, lower_of(user_agent@)) is None,
            },
    {
        let agent = to_lower(user_agent);
        self.rule_for(agent.as_str())
    }
}

} // verus!
