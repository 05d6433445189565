//! The table of overrides that a hostname selects.

use crate::addr::SocketAddr;
use crate::text;
use vstd::hash_map::StringHashMap;
use vstd::prelude::*;
use vstd::string::StringExecFns;

verus! {

/// Where the decrypted copy of an intercepted connection goes.
#[derive(Clone, Copy, Debug, PartialEq, Eq, Structural)]
pub enum MirrorAddr {
    /// Always to this address.
    Fixed(SocketAddr),
    /// To the client's own IP address, on this port.
    Client(u16),
}

/// How connections to a hostname are intercepted.
#[derive(Debug, PartialEq, Eq)]
pub struct TlsInterceptConfig {
    pub mirror: MirrorAddr,
    pub ca_cert: String,
    pub ca_key: String,
    pub match_fwmark: Option<u32>,
}

/// What a rule changes for the hostnames that it matches.
#[derive(Debug, PartialEq, Eq)]
pub struct RuleOverride {
    pub resolver: Option<String>,
    pub direct: Option<SocketAddr>,
    /// The firewall mark; zero where the rule sets none.
    pub fwmark: u32,
    /// Whether the rule sets a firewall mark.
    pub fwmark_set: bool,
    pub tls_intercept: Option<TlsInterceptConfig>,
}

/// Why a rule, or a whole table, is refused.
#[derive(Clone, Copy, Debug, PartialEq, Eq, Structural)]
pub enum RuleErrorKind {
    EmptyPattern,
    DirectAndResolver,
    NothingSet,
    WildcardSuffix,
    UnsupportedWildcard,
    Duplicate,
    NoRules,
}

/// A refusal, with the trimmed pattern of the rule that caused it.
#[derive(Debug)]
pub struct RuleTableError {
    pub kind: RuleErrorKind,
    pub pattern: String,
}

/// Rules by exact hostname, and by the suffix behind `*.`; the rule for `*` has the empty suffix.
/// All keys are in lower case.
pub struct RuleTable {
    exact: StringHashMap<RuleOverride>,
    wildcard: StringHashMap<RuleOverride>,
}

/// The two maps of a table.
#[verifier::ext_equal]
pub ghost struct RuleMaps {
    pub exact: Map<Seq<char>, RuleOverride>,
    pub wildcard: Map<Seq<char>, RuleOverride>,
}

/// What a pattern matches.
pub ghost enum Matcher {
    /// This hostname alone.
    Exact(Seq<char>),
    /// Every hostname that ends in a dot and this suffix; with the empty suffix, every hostname.
    Wildcard(Seq<char>),
}

/// The matcher that a trimmed, nonempty pattern stands for.
pub open spec fn matcher(pattern: Seq<char>) -> Result<Matcher, RuleErrorKind> {
    if pattern == seq!['*'] {
        Ok(Matcher::Wildcard(Seq::empty()))
    } else if pattern.len() >= 2 && pattern[0] == '*' && pattern[1] == '.' {
        let suffix = pattern.skip(2);
        if suffix.len() == 0 || suffix.contains('*') {
            Err(RuleErrorKind::WildcardSuffix)
        } else {
            Ok(Matcher::Wildcard(text::lowercase(suffix)))
        }
    } else if pattern.contains('*') {
        Err(RuleErrorKind::UnsupportedWildcard)
    } else {
        Ok(Matcher::Exact(text::lowercase(pattern)))
    }
}

impl RuleOverride {
    /// Why the overrides may not stand together, if they may not.
    pub open spec fn conflict(self) -> Option<RuleErrorKind> {
        if self.direct is Some && self.resolver is Some {
            Some(RuleErrorKind::DirectAndResolver)
        } else if self.direct is None && self.resolver is None && !self.fwmark_set
            && self.tls_intercept is None {
            Some(RuleErrorKind::NothingSet)
        } else {
            None
        }
    }
}

impl RuleMaps {
    /// The table without rules.
    pub open spec fn empty() -> RuleMaps {
        RuleMaps { exact: Map::empty(), wildcard: Map::empty() }
    }

    /// The table with one more rule, or why the rule is refused.
    pub open spec fn add(self, pattern: Seq<char>, rule: RuleOverride) -> Result<
        RuleMaps,
        RuleErrorKind,
    > {
        let pattern = text::trim(pattern);
        if pattern.len() == 0 {
            Err(RuleErrorKind::EmptyPattern)
        } else if rule.conflict() is Some {
            Err(rule.conflict()->0)
        } else {
            match matcher(pattern) {
                Err(kind) => Err(kind),
                Ok(Matcher::Wildcard(suffix)) => if self.wildcard.contains_key(suffix) {
                    Err(RuleErrorKind::Duplicate)
                } else {
                    Ok(RuleMaps { wildcard: self.wildcard.insert(suffix, rule), ..self })
                },
                Ok(Matcher::Exact(host)) => if self.exact.contains_key(host) {
                    Err(RuleErrorKind::Duplicate)
                } else {
                    Ok(RuleMaps { exact: self.exact.insert(host, rule), ..self })
                },
            }
        }
    }

    /// The table of a list of rules, or the refusal of the first one refused, with its pattern.
    pub open spec fn of_rules(rules: Seq<(Seq<char>, RuleOverride)>) -> Result<
        RuleMaps,
        (RuleErrorKind, Seq<char>),
    >
        decreases rules.len(),
    {
        if rules.len() == 0 {
            Ok(RuleMaps::empty())
        } else {
            match RuleMaps::of_rules(rules.drop_last()) {
                Err(e) => Err(e),
                Ok(maps) => match maps.add(rules.last().0, rules.last().1) {
                    Err(kind) => Err((kind, text::trim(rules.last().0))),
                    Ok(maps) => Ok(maps),
                },
            }
        }
    }

    /// The rule of the longest suffix behind a dot in `host`, else the rule for every hostname.
    pub open spec fn wildcard_rule(self, host: Seq<char>) -> Option<RuleOverride>
        decreases host.len(),
    {
        if host.len() == 0 {
            if self.wildcard.contains_key(host) {
                Some(self.wildcard[host])
            } else {
                None
            }
        } else if host.first() == '.' && self.wildcard.contains_key(host.drop_first()) {
            Some(self.wildcard[host.drop_first()])
        } else {
            self.wildcard_rule(host.drop_first())
        }
    }

    /// The rule that a hostname selects.
    pub open spec fn rule_for(self, hostname: Seq<char>) -> Option<RuleOverride> {
        let host = text::lowercase(hostname);
        if self.exact.contains_key(host) {
            Some(self.exact[host])
        } else {
            self.wildcard_rule(host)
        }
    }

    /// Every key is in lower case and free of `*`, no exact hostname is empty, and every rule may
    /// stand.
    pub open spec fn wf(self) -> bool {
        &&& forall|k: Seq<char>| #[trigger]
            self.exact.contains_key(k) ==> k.len() > 0 && text::lowercase(k) == k && !k.contains('*')
                && self.exact[k].conflict() is None
        &&& forall|k: Seq<char>| #[trigger]
            self.wildcard.contains_key(k) ==> text::lowercase(k) == k && !k.contains('*')
                && self.wildcard[k].conflict() is None
    }
}

impl View for RuleTable {
    type V = RuleMaps;

    closed spec fn view(&self) -> RuleMaps {
        RuleMaps { exact: self.exact@, wildcard: self.wildcard@ }
    }
}

impl Clone for TlsInterceptConfig {
    fn clone(&self) -> (r: Self)
        ensures
            r == *self,
    {
        TlsInterceptConfig {
            mirror: self.mirror,
            ca_cert: self.ca_cert.clone(),
            ca_key: self.ca_key.clone(),
            match_fwmark: self.match_fwmark,
        }
    }
}

impl Clone for RuleOverride {
    fn clone(&self) -> (r: Self)
        ensures
            r == *self,
    {
        RuleOverride {
            resolver: match &self.resolver {
                Some(resolver) => Some(resolver.clone()),
                None => None,
            },
            direct: self.direct,
            fwmark: self.fwmark,
            fwmark_set: self.fwmark_set,
            tls_intercept: match &self.tls_intercept {
                Some(config) => Some(config.clone()),
                None => None,
            },
        }
    }
}

impl RuleTableError {
    /// The refusal in words.
    pub open spec fn text(self) -> Seq<char> {
        let p = self.pattern@;
        match self.kind {
            RuleErrorKind::EmptyPattern => "rule table contains an empty pattern"@,
            RuleErrorKind::DirectAndResolver => "rule '"@ + p
                + "' cannot set both 'direct' and 'resolver'"@,
            RuleErrorKind::NothingSet => "rule '"@ + p
                + "' must set at least one of 'resolver', 'direct', 'fwmark' or 'tls_intercept'"@,
            RuleErrorKind::WildcardSuffix => "wildcard rule '"@ + p + "' must be '*.<suffix>'"@,
            RuleErrorKind::UnsupportedWildcard => "unsupported wildcard pattern '"@ + p + "'"@,
            RuleErrorKind::Duplicate => "duplicate rule for pattern '"@ + p + "'"@,
            RuleErrorKind::NoRules => "rule table must define at least one rule"@,
        }
    }

    /// Puts the refusal in words.
    pub fn message(&self) -> (r: String)
        ensures
            r@ == self.text(),
    {
        let p = self.pattern.as_str();
        match self.kind {
            RuleErrorKind::EmptyPattern => String::from_str("rule table contains an empty pattern"),
            RuleErrorKind::DirectAndResolver => String::from_str("rule '").concat(p).concat(
                "' cannot set both 'direct' and 'resolver'",
            ),
            RuleErrorKind::NothingSet => String::from_str("rule '").concat(p).concat(
                "' must set at least one of 'resolver', 'direct', 'fwmark' or 'tls_intercept'",
            ),
            RuleErrorKind::WildcardSuffix => String::from_str("wildcard rule '").concat(p).concat(
                "' must be '*.<suffix>'",
            ),
            RuleErrorKind::UnsupportedWildcard => String::from_str(
                "unsupported wildcard pattern '",
            ).concat(p).concat("'"),
            RuleErrorKind::Duplicate => String::from_str("duplicate rule for pattern '").concat(
                p,
            ).concat("'"),
            RuleErrorKind::NoRules => String::from_str("rule table must define at least one rule"),
        }
    }
}

impl MirrorAddr {
    /// The address to send the copy of a client's connection to.
    pub open spec fn target(self, client: SocketAddr) -> SocketAddr {
        match self {
            MirrorAddr::Fixed(addr) => addr,
            MirrorAddr::Client(port) => SocketAddr::of(client.ip(), port),
        }
    }

    /// The mirror that a text names, `socket` being the socket address that it spells, if any:
    /// `_:` and a port stand for the client's own address.
    pub open spec fn named(s: Seq<char>, socket: Option<SocketAddr>) -> Option<MirrorAddr> {
        if s.len() >= 2 && s[0] == '_' && s[1] == ':' {
            match port_number(s.skip(2)) {
                Some(port) => Some(MirrorAddr::Client(port)),
                None => None,
            }
        } else {
            match socket {
                Some(addr) => Some(MirrorAddr::Fixed(addr)),
                None => None,
            }
        }
    }

    /// The address to send the copy of a client's connection to.
    pub fn resolve(self, client: SocketAddr) -> (r: SocketAddr)
        ensures
            r == self.target(client),
    {
        match self {
            MirrorAddr::Fixed(addr) => addr,
            MirrorAddr::Client(port) => SocketAddr::new(client.ip(), port),
        }
    }

    /// Reads a mirror address; `socket` is the socket address that the text spells, if any.
    pub fn parse(s: &str, socket: Option<SocketAddr>) -> (r: Option<MirrorAddr>)
        ensures
            r == MirrorAddr::named(s@, socket),
    {
        let chars = text::chars_of(s);
        if chars.len() >= 2 && chars[0] == '_' && chars[1] == ':' {
            match parse_port(&chars, 2) {
                Some(port) => Some(MirrorAddr::Client(port)),
                None => None,
            }
        } else {
            match socket {
                Some(addr) => Some(MirrorAddr::Fixed(addr)),
                None => None,
            }
        }
    }
}

/// The value of a row of decimal digits.
pub open spec fn digits_value(s: Seq<char>) -> nat
    decreases s.len(),
{
    if s.len() == 0 {
        0
    } else {
        10 * digits_value(s.drop_last()) + (s.last() as int - 48) as nat
    }
}

/// The port that a text spells: one or more decimal digits with a value that fits.
pub open spec fn port_number(s: Seq<char>) -> Option<u16> {
    if s.len() > 0 && (forall|i: int| 0 <= i < s.len() ==> '0' <= #[trigger] s[i] <= '9')
        && digits_value(s) <= 0xffff {
        Some(digits_value(s) as u16)
    } else {
        None
    }
}

/// A row of digits is worth at least as much as each row that it begins with.
proof fn lemma_digits_grow(s: Seq<char>, n: int)
    requires
        0 <= n <= s.len(),
    ensures
        digits_value(s.take(n)) <= digits_value(s),
    decreases s.len(),
{
    if n < s.len() {
        lemma_digits_grow(s.drop_last(), n);
        assert(s.drop_last().take(n) == s.take(n));
    } else {
        assert(s.take(n) == s);
    }
}

/// Reads the port that the characters from `from` on spell.
fn parse_port(chars: &Vec<char>, from: usize) -> (r: Option<u16>)
    requires
        from <= chars@.len(),
    ensures
        r == port_number(chars@.skip(from as int)),
{
    let ghost s = chars@.skip(from as int);
    if from == chars.len() {
        return None;
    }
    let mut value: u32 = 0;
    let mut i: usize = from;
    while i < chars.len()
        invariant
            from <= i <= chars@.len(),
            s == chars@.skip(from as int),
            value == digits_value(s.take(i - from)),
            value <= 0xffff,
            forall|k: int| 0 <= k < i - from ==> '0' <= #[trigger] s[k] <= '9',
        decreases chars@.len() - i,
    {
        let c = chars[i];
        assert(s[i - from] == c);
        if c < '0' || c > '9' {
            return None;
        }
        assert(s.take(i - from + 1).drop_last() == s.take(i - from));
        value = value * 10 + (c as u32 - 48);
        i += 1;
        if value > 0xffff {
            proof {
                lemma_digits_grow(s, i - from);
            }
            return None;
        }
    }
    assert(s.take(i - from) == s);
    Some(value as u16)
}

/// Refuses overrides that exclude each other, and a rule that sets nothing.
fn validate_overrides(overrides: &RuleOverride) -> (r: Result<(), RuleErrorKind>)
    ensures
        match r {
            Ok(_) => overrides.conflict() is None,
            Err(kind) => overrides.conflict() == Some(kind),
        },
{
    if overrides.direct.is_some() && overrides.resolver.is_some() {
        Err(RuleErrorKind::DirectAndResolver)
    } else if overrides.direct.is_none() && overrides.resolver.is_none() && !overrides.fwmark_set
        && overrides.tls_intercept.is_none() {
        Err(RuleErrorKind::NothingSet)
    } else {
        Ok(())
    }
}

/// Adds a rule under a key that is still free.
fn insert_unique(
    map: &mut StringHashMap<RuleOverride>,
    key: String,
    overrides: RuleOverride,
) -> (r: Result<(), RuleErrorKind>)
    ensures
        match r {
            Ok(_) => !old(map)@.contains_key(key@) && final(map)@ == old(map)@.insert(
                key@,
                overrides,
            ),
            Err(kind) => old(map)@.contains_key(key@) && kind == RuleErrorKind::Duplicate
                && final(map)@ == old(map)@,
        },
{
    if map.contains_key(key.as_str()) {
        return Err(RuleErrorKind::Duplicate);
    }
    map.insert(key, overrides);
    Ok(())
}

/// Whether a character occurs from `from` on.
fn contains_from(chars: &Vec<char>, from: usize, to: usize, c: char) -> (r: bool)
    requires
        from <= to <= chars@.len(),
    ensures
        r == chars@.subrange(from as int, to as int).contains(c),
{
    let ghost s = chars@.subrange(from as int, to as int);
    let mut i: usize = from;
    while i < to
        invariant
            from <= i <= to <= chars@.len(),
            s == chars@.subrange(from as int, to as int),
            forall|k: int| 0 <= k < i - from ==> s[k] != c,
        decreases to - i,
    {
        if chars[i] == c {
            assert(s[i - from] == c);
            return true;
        }
        i += 1;
    }
    false
}

/// The characters from `from` up to, not including, `to`, in lower case.
fn lower_string(chars: &Vec<char>, from: usize, to: usize) -> (r: String)
    requires
        from <= to <= chars@.len(),
    ensures
        r@ == text::lowercase(chars@.subrange(from as int, to as int)),
{
    let low = text::to_lowercase(chars);
    assert(low@.subrange(from as int, to as int) == text::lowercase(
        chars@.subrange(from as int, to as int),
    ));
    text::string_of(&low, from, to)
}

impl RuleTable {
    /// A table without rules.
    pub fn new() -> (r: RuleTable)
        ensures
            r@ == RuleMaps::empty(),
    {
        RuleTable { exact: StringHashMap::new(), wildcard: StringHashMap::new() }
    }

    /// Adds the rule for a pattern: a hostname, `*.` and a suffix, or `*`.
    pub fn add_rule(&mut self, pattern: &str, overrides: RuleOverride) -> (r: Result<
        (),
        RuleTableError,
    >)
        ensures
            match r {
                Ok(_) => old(self)@.add(pattern@, overrides) == Ok::<_, RuleErrorKind>(
                    final(self)@,
                ),
                Err(e) => {
                    &&& old(self)@.add(pattern@, overrides) == Err::<RuleMaps, _>(e.kind)
                    &&& e.pattern@ == text::trim(pattern@)
                    &&& final(self)@ == old(self)@
                },
            },
    {
        let chars = text::chars_of(pattern);
        let (from, to) = text::trim_bounds(&chars);
        let ghost trimmed = text::trim(pattern@);
        let ghost star = seq!['*'];
        assert(trimmed == star ==> trimmed.len() == 1 && trimmed[0] == '*');
        if from == to {
            return Err(
                RuleTableError { kind: RuleErrorKind::EmptyPattern, pattern: String::new() },
            );
        }
        let outcome = match validate_overrides(&overrides) {
            Err(kind) => Err(kind),
            Ok(_) => if to - from == 1 && chars[from] == '*' {
                assert(trimmed == star);
                insert_unique(&mut self.wildcard, String::new(), overrides)
            } else if to - from >= 2 && chars[from] == '*' && chars[from + 1] == '.' {
                assert(trimmed.skip(2) == chars@.subrange(from + 2, to as int));
                if to - from == 2 || contains_from(&chars, from + 2, to, '*') {
                    Err(RuleErrorKind::WildcardSuffix)
                } else {
                    let key = lower_string(&chars, from + 2, to);
                    insert_unique(&mut self.wildcard, key, overrides)
                }
            } else if contains_from(&chars, from, to, '*') {
                Err(RuleErrorKind::UnsupportedWildcard)
            } else {
                let key = lower_string(&chars, from, to);
                insert_unique(&mut self.exact, key, overrides)
            },
        };
        match outcome {
            Ok(_) => {
                assert(old(self)@.add(pattern@, overrides) is Ok);
                assert(old(self)@.add(pattern@, overrides)->Ok_0 =~= self@);
                Ok(())
            },
            Err(kind) => Err(RuleTableError { kind, pattern: text::string_of(&chars, from, to) }),
        }
    }

    /// Refuses a table without rules.
    pub fn finish(self) -> (r: Result<RuleTable, RuleTableError>)
        ensures
            match r {
                Ok(table) => table@ == self@ && self@ != RuleMaps::empty(),
                Err(e) => e.kind == RuleErrorKind::NoRules && e.pattern@.len() == 0 && self@
                    == RuleMaps::empty(),
            },
    {
        if self.exact.is_empty() && self.wildcard.is_empty() {
            assert(self@ =~= RuleMaps::empty());
            Err(RuleTableError { kind: RuleErrorKind::NoRules, pattern: String::new() })
        } else {
            Ok(self)
        }
    }

    /// Makes the table of a list of rules, in order.
    pub fn from_rules(rules: Vec<(String, RuleOverride)>) -> (r: Result<RuleTable, RuleTableError>)
        ensures
            match r {
                Ok(table) => {
                    &&& RuleMaps::of_rules(rule_views(rules@)) == Ok::<
                        _,
                        (RuleErrorKind, Seq<char>),
                    >(table@)
                    &&& rules@.len() > 0
                    &&& table@.wf()
                },
                Err(e) => if rules@.len() == 0 {
                    e.kind == RuleErrorKind::NoRules && e.pattern@.len() == 0
                } else {
                    RuleMaps::of_rules(rule_views(rules@)) == Err::<RuleMaps, _>(
                        (e.kind, e.pattern@),
                    )
                },
            },
    {
        let mut table = RuleTable::new();
        let ghost views = rule_views(rules@);
        let mut i: usize = 0;
        assert(views.take(0) == Seq::<(Seq<char>, RuleOverride)>::empty());
        while i < rules.len()
            invariant
                i <= rules@.len(),
                views == rule_views(rules@),
                RuleMaps::of_rules(views.take(i as int)) == Ok::<_, (RuleErrorKind, Seq<char>)>(
                    table@,
                ),
            decreases rules@.len() - i,
        {
            assert(views.take(i + 1).drop_last() == views.take(i as int));
            match table.add_rule(rules[i].0.as_str(), rules[i].1.clone()) {
                Ok(_) => {},
                Err(e) => {
                    proof {
                        lemma_first_refusal(views, i + 1);
                    }
                    return Err(e);
                },
            }
            i += 1;
        }
        proof {
            assert(views.take(i as int) == views);
            lemma_of_rules_wf(views);
        }
        table.finish()
    }

    /// The rule that a hostname selects: the rule for exactly this hostname, else the wildcard rule
    /// with the longest suffix, else the rule for every hostname. Case does not matter.
    pub fn lookup(&self, hostname: &str) -> (r: Option<RuleOverride>)
        ensures
            r == self@.rule_for(hostname@),
    {
        let chars = text::chars_of(hostname);
        let query = text::to_lowercase(&chars);
        let ghost host = text::lowercase(hostname@);
        let whole = text::string_of(&query, 0, query.len());
        assert(query@.subrange(0, query@.len() as int) == host);
        if let Some(rule) = self.exact.get(whole.as_str()) {
            return Some(rule.clone());
        }
        let mut i: usize = 0;
        assert(host.skip(0) == host);
        while i < query.len()
            invariant
                i <= query@.len(),
                query@ == host,
                self@.wildcard_rule(host.skip(i as int)) == self@.wildcard_rule(host),
                !self@.exact.contains_key(host),
                host == text::lowercase(hostname@),
            decreases query@.len() - i,
        {
            assert(host.skip(i as int).drop_first() == host.skip(i + 1));
            if query[i] == '.' {
                let rest = text::string_of(&query, i + 1, query.len());
                assert(rest@ == host.skip(i + 1));
                if let Some(rule) = self.wildcard.get(rest.as_str()) {
                    return Some(rule.clone());
                }
            }
            i += 1;
        }
        assert(host.skip(i as int) == Seq::<char>::empty());
        proof {
            reveal_strlit("");
            assert(""@ == Seq::<char>::empty());
        }
        match self.wildcard.get("") {
            Some(rule) => {
                Some(rule.clone())
            },
            None => None,
        }
    }
}

/// A list of rules with its patterns as sequences of characters.
pub open spec fn rule_views(rules: Seq<(String, RuleOverride)>) -> Seq<(Seq<char>, RuleOverride)> {
    rules.map_values(|r: (String, RuleOverride)| (r.0@, r.1))
}

/// A refusal among the first rules is the refusal of the whole list.
proof fn lemma_first_refusal(rules: Seq<(Seq<char>, RuleOverride)>, n: int)
    requires
        0 <= n <= rules.len(),
        RuleMaps::of_rules(rules.take(n)) is Err,
    ensures
        RuleMaps::of_rules(rules) == RuleMaps::of_rules(rules.take(n)),
    decreases rules.len() - n,
{
    if n < rules.len() {
        assert(rules.take(n + 1).drop_last() == rules.take(n));
        lemma_first_refusal(rules, n + 1);
    } else {
        assert(rules.take(n) == rules);
    }
}

/// Lowering a text twice changes no more than lowering it once.
proof fn lemma_lowercase_idempotent(s: Seq<char>)
    ensures
        text::lowercase(text::lowercase(s)) == text::lowercase(s),
        !s.contains('*') ==> !text::lowercase(s).contains('*'),
{
    let low = text::lowercase(s);
    assert(text::lowercase(low) == low);
    if low.contains('*') {
        let i = choose|i: int| 0 <= i < low.len() && low[i] == '*';
        assert(s[i] == '*');
    }
}

/// Adding a rule keeps the keys in lower case, and every rule in the table may stand: none sets both
/// `direct` and `resolver`, and each sets something.
pub proof fn lemma_add_keeps_wf(maps: RuleMaps, pattern: Seq<char>, rule: RuleOverride)
    requires
        maps.wf(),
    ensures
        maps.add(pattern, rule) matches Ok(grown) ==> grown.wf(),
{
    let p = text::trim(pattern);
    lemma_lowercase_idempotent(p);
    lemma_lowercase_idempotent(p.skip(2));
    if maps.add(pattern, rule) is Ok {
        let grown = maps.add(pattern, rule)->Ok_0;
        match matcher(p) {
            Ok(Matcher::Wildcard(suffix)) => {
                assert(text::lowercase(suffix) == suffix && !suffix.contains('*'));
            },
            Ok(Matcher::Exact(host)) => {
                assert(text::lowercase(host) == host && !host.contains('*'));
            },
            Err(_) => {},
        }
        assert(grown.wf());
    }
}

/// The table of any list of rules is well-formed, and not empty if the list is not.
pub proof fn lemma_of_rules_wf(rules: Seq<(Seq<char>, RuleOverride)>)
    ensures
        RuleMaps::of_rules(rules) matches Ok(maps) ==> {
            &&& maps.wf()
            &&& rules.len() == 0 <==> maps == RuleMaps::empty()
        },
    decreases rules.len(),
{
    if rules.len() > 0 {
        lemma_of_rules_wf(rules.drop_last());
        if RuleMaps::of_rules(rules.drop_last()) is Ok {
            let maps = RuleMaps::of_rules(rules.drop_last())->Ok_0;
            lemma_add_keeps_wf(maps, rules.last().0, rules.last().1);
            if maps.add(rules.last().0, rules.last().1) is Ok {
                let grown = maps.add(rules.last().0, rules.last().1)->Ok_0;
                match matcher(text::trim(rules.last().0)) {
                    Ok(Matcher::Wildcard(suffix)) => {
                        assert(grown.wildcard.contains_key(suffix));
                    },
                    Ok(Matcher::Exact(host)) => {
                        assert(grown.exact.contains_key(host));
                    },
                    Err(_) => {},
                }
            }
        }
    }
}

}
