//! What holds of every rule table.

use crate::addr::SocketAddr;
use crate::rule_table;
use crate::text;
use vstd::prelude::*;

verus! {

/// Whether `host` ends in a dot and then `suffix`.
pub open spec fn ends_behind_dot(host: Seq<char>, suffix: Seq<char>) -> bool {
    &&& suffix.len() < host.len()
    &&& host[host.len() - suffix.len() - 1] == '.'
    &&& host.skip(host.len() - suffix.len()) == suffix
}

/// Whether a matcher covers a hostname in lower case.
pub open spec fn covers(m: rule_table::Matcher, host: Seq<char>) -> bool {
    match m {
        rule_table::Matcher::Exact(name) => host == name,
        rule_table::Matcher::Wildcard(suffix) => suffix.len() == 0 || ends_behind_dot(host, suffix),
    }
}

/// Whether `key` is the longest suffix with a wildcard rule behind a dot in `host`.
pub open spec fn is_longest_suffix(
    maps: rule_table::RuleMaps,
    host: Seq<char>,
    key: Seq<char>,
) -> bool {
    &&& maps.wildcard.contains_key(key)
    &&& ends_behind_dot(host, key)
    &&& forall|k: Seq<char>| #[trigger]
        maps.wildcard.contains_key(k) && ends_behind_dot(host, k) ==> k.len() <= key.len()
}

/// Hostnames that differ only in the case of ASCII letters select the same rule.
pub proof fn law_case_does_not_matter(maps: rule_table::RuleMaps, a: Seq<char>, b: Seq<char>)
    requires
        text::lowercase(a) == text::lowercase(b),
    ensures
        maps.rule_for(a) == maps.rule_for(b),
{
}

/// A rule for exactly the hostname comes before every wildcard rule.
pub proof fn law_exact_rule_first(maps: rule_table::RuleMaps, hostname: Seq<char>)
    requires
        maps.exact.contains_key(text::lowercase(hostname)),
    ensures
        maps.rule_for(hostname) == Some(maps.exact[text::lowercase(hostname)]),
{
}

/// A suffix behind a dot in the rest of a hostname stands behind a dot in the hostname too, and the
/// only one more is the rest itself.
proof fn lemma_suffix_of_rest(host: Seq<char>, k: Seq<char>)
    requires
        host.len() > 0,
    ensures
        ends_behind_dot(host.drop_first(), k) ==> ends_behind_dot(host, k),
        ends_behind_dot(host, k) ==> ends_behind_dot(host.drop_first(), k) || (host.first() == '.'
            && k == host.drop_first()),
{
    let rest = host.drop_first();
    if k.len() < rest.len() {
        assert(rest.skip(rest.len() - k.len()) == host.skip(host.len() - k.len()));
        assert(rest[rest.len() - k.len() - 1] == host[host.len() - k.len() - 1]);
    } else if k.len() == rest.len() {
        assert(host.skip(1) == rest);
    }
}

/// Without an exact rule, a hostname selects the wildcard rule with the longest suffix behind one of
/// its dots; where there is none, the rule for `*`; where that is missing too, no rule.
pub proof fn law_longest_suffix_wins(maps: rule_table::RuleMaps, host: Seq<char>)
    ensures
        match maps.wildcard_rule(host) {
            Some(rule) => {
                ||| exists|key: Seq<char>| #[trigger]
                    is_longest_suffix(maps, host, key) && rule == maps.wildcard[key]
                ||| {
                    &&& forall|k: Seq<char>| #[trigger]
                        maps.wildcard.contains_key(k) ==> !ends_behind_dot(host, k)
                    &&& maps.wildcard.contains_key(Seq::empty())
                    &&& rule == maps.wildcard[Seq::empty()]
                }
            },
            None => {
                &&& forall|k: Seq<char>| #[trigger]
                    maps.wildcard.contains_key(k) ==> !ends_behind_dot(host, k)
                &&& !maps.wildcard.contains_key(Seq::empty())
            },
        },
    decreases host.len(),
{
    if host.len() == 0 {
        assert(host == Seq::<char>::empty());
    } else {
        let rest = host.drop_first();
        if host.first() == '.' && maps.wildcard.contains_key(rest) {
            assert(host.skip(1) == rest);
            assert(ends_behind_dot(host, rest));
            assert(is_longest_suffix(maps, host, rest));
        } else {
            law_longest_suffix_wins(maps, rest);
            assert forall|k: Seq<char>| #[trigger] maps.wildcard.contains_key(k) implies (
            ends_behind_dot(host, k) <==> ends_behind_dot(rest, k)) by {
                lemma_suffix_of_rest(host, k);
            }
            if exists|key: Seq<char>| #[trigger] is_longest_suffix(maps, rest, key) {
                let key = choose|key: Seq<char>| #[trigger]
                    is_longest_suffix(maps, rest, key) && maps.wildcard_rule(rest) == Some(
                        maps.wildcard[key],
                    );
                assert(maps.wildcard.contains_key(key));
                assert(is_longest_suffix(maps, host, key));
            }
        }
    }
}

/// The longest suffix decides: whatever suffix is the longest, its rule is the one selected.
pub proof fn law_longest_suffix_selected(
    maps: rule_table::RuleMaps,
    host: Seq<char>,
    key: Seq<char>,
)
    requires
        is_longest_suffix(maps, host, key),
    ensures
        maps.wildcard_rule(host) == Some(maps.wildcard[key]),
{
    law_longest_suffix_wins(maps, host);
    let other = choose|other: Seq<char>| #[trigger]
        is_longest_suffix(maps, host, other) && maps.wildcard_rule(host) == Some(
            maps.wildcard[other],
        );
    assert(is_longest_suffix(maps, host, other));
    assert(maps.wildcard.contains_key(other));
    assert(maps.wildcard.contains_key(key));
    assert(other == key);
}

/// `*.` and a suffix covers the subdomains of the suffix, not the suffix itself.
pub proof fn law_wildcard_covers_subdomains(suffix: Seq<char>, label: Seq<char>)
    requires
        suffix.len() > 0,
    ensures
        covers(rule_table::Matcher::Wildcard(suffix), label.push('.') + suffix),
        !covers(rule_table::Matcher::Wildcard(suffix), suffix),
{
    let host = label.push('.') + suffix;
    assert(host.skip(host.len() - suffix.len()) == suffix);
}

/// What was added is found: a hostname that the new rule's pattern covers selects the new rule,
/// unless the table has an exact rule for it or a wildcard rule with a longer suffix.
pub proof fn law_added_rule_found(
    maps: rule_table::RuleMaps,
    pattern: Seq<char>,
    rule: rule_table::RuleOverride,
    hostname: Seq<char>,
)
    requires
        maps.add(pattern, rule) is Ok,
        covers(rule_table::matcher(text::trim(pattern))->Ok_0, text::lowercase(hostname)),
        rule_table::matcher(text::trim(pattern))->Ok_0 matches rule_table::Matcher::Wildcard(
            suffix,
        ) ==> {
            &&& !maps.exact.contains_key(text::lowercase(hostname))
            &&& forall|k: Seq<char>| #[trigger]
                maps.wildcard.contains_key(k) && ends_behind_dot(text::lowercase(hostname), k)
                    ==> k.len() < suffix.len()
        },
    ensures
        maps.add(pattern, rule)->Ok_0.rule_for(hostname) == Some(rule),
{
    let grown = maps.add(pattern, rule)->Ok_0;
    let host = text::lowercase(hostname);
    match rule_table::matcher(text::trim(pattern))->Ok_0 {
        rule_table::Matcher::Exact(name) => {},
        rule_table::Matcher::Wildcard(suffix) => {
            if ends_behind_dot(host, suffix) {
                assert(is_longest_suffix(grown, host, suffix));
                law_longest_suffix_selected(grown, host, suffix);
            } else {
                assert(suffix == Seq::<char>::empty());
                law_longest_suffix_wins(grown, host);
                assert(grown.wildcard.contains_key(suffix));
                assert forall|k: Seq<char>| grown.wildcard.contains_key(k) implies !ends_behind_dot(
                    host,
                    k,
                ) by {
                    if k != suffix {
                        assert(maps.wildcard.contains_key(k));
                    }
                }
            }
        },
    }
}

/// A new rule changes nothing for the hostnames that its pattern does not cover.
pub proof fn law_other_hostnames_unchanged(
    maps: rule_table::RuleMaps,
    pattern: Seq<char>,
    rule: rule_table::RuleOverride,
    hostname: Seq<char>,
)
    requires
        maps.add(pattern, rule) is Ok,
        !covers(rule_table::matcher(text::trim(pattern))->Ok_0, text::lowercase(hostname)),
    ensures
        maps.add(pattern, rule)->Ok_0.rule_for(hostname) == maps.rule_for(hostname),
{
    let grown = maps.add(pattern, rule)->Ok_0;
    let host = text::lowercase(hostname);
    match rule_table::matcher(text::trim(pattern))->Ok_0 {
        rule_table::Matcher::Exact(name) => {
            lemma_same_wildcards(maps, grown, host);
        },
        rule_table::Matcher::Wildcard(suffix) => {
            lemma_one_more_wildcard(maps, grown, suffix, rule, host);
        },
    }
}

/// Tables with the same wildcard rules select the same wildcard rule.
proof fn lemma_same_wildcards(
    a: rule_table::RuleMaps,
    b: rule_table::RuleMaps,
    host: Seq<char>,
)
    requires
        a.wildcard == b.wildcard,
    ensures
        a.wildcard_rule(host) == b.wildcard_rule(host),
    decreases host.len(),
{
    if host.len() > 0 {
        lemma_same_wildcards(a, b, host.drop_first());
    }
}

/// One more wildcard rule changes nothing where its suffix stands behind no dot.
proof fn lemma_one_more_wildcard(
    maps: rule_table::RuleMaps,
    grown: rule_table::RuleMaps,
    suffix: Seq<char>,
    rule: rule_table::RuleOverride,
    host: Seq<char>,
)
    requires
        grown.wildcard == maps.wildcard.insert(suffix, rule),
        suffix.len() > 0,
        !ends_behind_dot(host, suffix),
    ensures
        grown.wildcard_rule(host) == maps.wildcard_rule(host),
    decreases host.len(),
{
    if host.len() > 0 {
        lemma_suffix_of_rest(host, suffix);
        assert(host.skip(1) == host.drop_first());
        lemma_one_more_wildcard(maps, grown, suffix, rule, host.drop_first());
    }
}

/// Whether a rule can stand in some table: its pattern means something and its overrides may stand
/// together.
pub open spec fn admissible(rule: (Seq<char>, rule_table::RuleOverride)) -> bool {
    &&& text::trim(rule.0).len() > 0
    &&& rule.1.conflict() is None
    &&& rule_table::matcher(text::trim(rule.0)) is Ok
}

/// What a rule that can stand in some table matches.
pub open spec fn matcher_of(rule: (Seq<char>, rule_table::RuleOverride)) -> rule_table::Matcher {
    rule_table::matcher(text::trim(rule.0))->Ok_0
}

/// Whether a table has a rule with such a matcher.
pub open spec fn has_matcher(maps: rule_table::RuleMaps, m: rule_table::Matcher) -> bool {
    match m {
        rule_table::Matcher::Exact(host) => maps.exact.contains_key(host),
        rule_table::Matcher::Wildcard(suffix) => maps.wildcard.contains_key(suffix),
    }
}

/// The rule of a table with such a matcher.
pub open spec fn rule_of(
    maps: rule_table::RuleMaps,
    m: rule_table::Matcher,
) -> rule_table::RuleOverride {
    match m {
        rule_table::Matcher::Exact(host) => maps.exact[host],
        rule_table::Matcher::Wildcard(suffix) => maps.wildcard[suffix],
    }
}

/// Whether every rule of a list can stand in some table, and no two match the same.
pub open spec fn compatible(rules: Seq<(Seq<char>, rule_table::RuleOverride)>) -> bool {
    &&& forall|i: int| 0 <= i < rules.len() ==> admissible(#[trigger] rules[i])
    &&& forall|i: int, j: int|
        0 <= i < j < rules.len() ==> matcher_of(#[trigger] rules[i]) != matcher_of(#[trigger] rules[j])
}

/// Whether one of the rules has such a matcher.
pub open spec fn listed(
    rules: Seq<(Seq<char>, rule_table::RuleOverride)>,
    m: rule_table::Matcher,
) -> bool {
    exists|i: int| 0 <= i < rules.len() && matcher_of(#[trigger] rules[i]) == m
}

/// A list of rules makes a table exactly if its rules are compatible, and the table then has exactly
/// the rules of the list.
pub proof fn law_table_of_list(rules: Seq<(Seq<char>, rule_table::RuleOverride)>)
    ensures
        rule_table::RuleMaps::of_rules(rules) is Ok <==> compatible(rules),
        rule_table::RuleMaps::of_rules(rules) matches Ok(maps) ==> {
            &&& forall|m: rule_table::Matcher| #[trigger] has_matcher(maps, m) <==> listed(rules, m)
            &&& forall|i: int|
                0 <= i < rules.len() ==> rule_of(maps, matcher_of(#[trigger] rules[i])) == rules[i].1
        },
    decreases rules.len(),
{
    if rules.len() > 0 {
        let init = rules.drop_last();
        let last = rules.last();
        law_table_of_list(init);
        assert(forall|i: int| 0 <= i < init.len() ==> #[trigger] init[i] == rules[i]);
        assert(rules[rules.len() - 1] == last);
        if compatible(rules) {
            assert(compatible(init)) by {
                assert forall|i: int| 0 <= i < init.len() implies admissible(
                    #[trigger] init[i],
                ) by {
                    assert(admissible(rules[i]));
                }
                assert forall|i: int, j: int| 0 <= i < j < init.len() implies matcher_of(
                    #[trigger] init[i],
                ) != matcher_of(#[trigger] init[j]) by {
                    assert(matcher_of(rules[i]) != matcher_of(rules[j]));
                }
            }
            let before = rule_table::RuleMaps::of_rules(init)->Ok_0;
            assert(!has_matcher(before, matcher_of(last))) by {
                if listed(init, matcher_of(last)) {
                    let i = choose|i: int|
                        0 <= i < init.len() && matcher_of(#[trigger] init[i]) == matcher_of(last);
                    assert(matcher_of(rules[i]) != matcher_of(rules[rules.len() - 1]));
                }
            }
            assert(admissible(rules[rules.len() - 1]));
            assert(before.add(last.0, last.1) is Ok);
        }
        if rule_table::RuleMaps::of_rules(rules) is Ok {
            let before = rule_table::RuleMaps::of_rules(init)->Ok_0;
            let maps = rule_table::RuleMaps::of_rules(rules)->Ok_0;
            assert(admissible(last));
            assert(!has_matcher(before, matcher_of(last)));
            assert forall|m: rule_table::Matcher| #[trigger]
                has_matcher(maps, m) <==> listed(rules, m) by {
                assert(has_matcher(maps, m) <==> has_matcher(before, m) || m == matcher_of(last));
                if listed(init, m) {
                    let i = choose|i: int| 0 <= i < init.len() && matcher_of(#[trigger] init[i]) == m;
                    assert(matcher_of(rules[i]) == m);
                }
                if m == matcher_of(last) {
                    assert(matcher_of(rules[rules.len() - 1]) == m);
                }
                if listed(rules, m) {
                    let i = choose|i: int|
                        0 <= i < rules.len() && matcher_of(#[trigger] rules[i]) == m;
                    if i < init.len() {
                        assert(matcher_of(init[i]) == m);
                    }
                }
            }
            assert forall|i: int| 0 <= i < rules.len() implies rule_of(
                maps,
                matcher_of(#[trigger] rules[i]),
            ) == rules[i].1 by {
                if i < init.len() {
                    assert(matcher_of(init[i]) == matcher_of(rules[i]));
                    assert(listed(init, matcher_of(rules[i])));
                    assert(has_matcher(before, matcher_of(rules[i])));
                    assert(rule_of(before, matcher_of(init[i])) == init[i].1);
                }
            }
            assert(compatible(rules)) by {
                assert forall|i: int| 0 <= i < rules.len() implies admissible(
                    #[trigger] rules[i],
                ) by {
                    if i < init.len() {
                        assert(admissible(init[i]));
                    }
                }
                assert forall|i: int, j: int| 0 <= i < j < rules.len() implies matcher_of(
                    #[trigger] rules[i],
                ) != matcher_of(#[trigger] rules[j]) by {
                    if j < init.len() {
                        assert(matcher_of(init[i]) != matcher_of(init[j]));
                    } else {
                        assert(matcher_of(init[i]) == matcher_of(rules[i]));
                        assert(listed(init, matcher_of(rules[i])));
                        assert(has_matcher(before, matcher_of(rules[i])));
                    }
                }
            }
        }
    }
}

/// Another order of compatible rules is compatible too.
proof fn lemma_order_keeps_compatible(
    a: Seq<(Seq<char>, rule_table::RuleOverride)>,
    b: Seq<(Seq<char>, rule_table::RuleOverride)>,
)
    requires
        a.to_multiset() == b.to_multiset(),
        compatible(a),
    ensures
        compatible(b),
        forall|i: int| 0 <= i < b.len() ==> a.contains(#[trigger] b[i]),
{
    a.to_multiset_ensures();
    b.to_multiset_ensures();
    assert(a.no_duplicates()) by {
        assert forall|i: int, j: int| 0 <= i < a.len() && 0 <= j < a.len() && i != j implies a[i]
            != a[j] by {
            if i < j {
                assert(matcher_of(a[i]) != matcher_of(a[j]));
            } else {
                assert(matcher_of(a[j]) != matcher_of(a[i]));
            }
        }
    }
    a.lemma_multiset_has_no_duplicates();
    b.lemma_multiset_has_no_duplicates_conv();
    assert forall|i: int| 0 <= i < b.len() implies a.contains(#[trigger] b[i]) by {
        assert(b.contains(b[i]));
        assert(b.to_multiset().count(b[i]) > 0);
    }
    assert forall|i: int| 0 <= i < b.len() implies admissible(#[trigger] b[i]) by {
        assert(a.contains(b[i]));
        let k = choose|k: int| 0 <= k < a.len() && a[k] == b[i];
        assert(admissible(a[k]));
    }
    assert forall|i: int, j: int| 0 <= i < j < b.len() implies matcher_of(#[trigger] b[i]) != matcher_of(
        #[trigger] b[j],
    ) by {
        assert(a.contains(b[i]) && a.contains(b[j]));
        let k = choose|k: int| 0 <= k < a.len() && a[k] == b[i];
        let l = choose|l: int| 0 <= l < a.len() && a[l] == b[j];
        assert(b[i] != b[j]);
        if k < l {
            assert(matcher_of(a[k]) != matcher_of(a[l]));
        } else {
            assert(matcher_of(a[l]) != matcher_of(a[k]));
        }
    }
}

/// The order of a list of rules does not matter: two orders of one list make the same table, or both
/// make none.
pub proof fn law_order_does_not_matter(
    a: Seq<(Seq<char>, rule_table::RuleOverride)>,
    b: Seq<(Seq<char>, rule_table::RuleOverride)>,
)
    requires
        a.to_multiset() == b.to_multiset(),
    ensures
        rule_table::RuleMaps::of_rules(a) is Ok <==> rule_table::RuleMaps::of_rules(b) is Ok,
        rule_table::RuleMaps::of_rules(a) is Ok ==> rule_table::RuleMaps::of_rules(a)
            == rule_table::RuleMaps::of_rules(b),
{
    law_table_of_list(a);
    law_table_of_list(b);
    if compatible(a) {
        lemma_order_keeps_compatible(a, b);
    }
    if compatible(b) {
        lemma_order_keeps_compatible(b, a);
    }
    if compatible(a) {
        let x = rule_table::RuleMaps::of_rules(a)->Ok_0;
        let y = rule_table::RuleMaps::of_rules(b)->Ok_0;
        assert forall|m: rule_table::Matcher| #[trigger] has_matcher(x, m) implies has_matcher(y, m)
            && rule_of(x, m) == rule_of(y, m) by {
            let i = choose|i: int| 0 <= i < a.len() && matcher_of(#[trigger] a[i]) == m;
            assert(b.contains(a[i]));
            let j = choose|j: int| 0 <= j < b.len() && b[j] == a[i];
            assert(matcher_of(b[j]) == m);
            assert(listed(b, m));
        }
        assert forall|m: rule_table::Matcher| #[trigger] has_matcher(y, m) implies has_matcher(
            x,
            m,
        ) by {
            let j = choose|j: int| 0 <= j < b.len() && matcher_of(#[trigger] b[j]) == m;
            assert(a.contains(b[j]));
            let i = choose|i: int| 0 <= i < a.len() && a[i] == b[j];
            assert(matcher_of(a[i]) == m);
            assert(listed(a, m));
        }
        assert(x.exact =~= y.exact) by {
            assert forall|k: Seq<char>| #[trigger] x.exact.contains_key(k) <==> y.exact.contains_key(
                k,
            ) by {
                let m = rule_table::Matcher::Exact(k);
                assert(has_matcher(x, m) <==> has_matcher(y, m));
            }
            assert forall|k: Seq<char>| #[trigger] x.exact.contains_key(k) implies x.exact[k]
                == y.exact[k] by {
                let m = rule_table::Matcher::Exact(k);
                assert(has_matcher(x, m));
                assert(rule_of(x, m) == rule_of(y, m));
            }
        }
        assert(x.wildcard =~= y.wildcard) by {
            assert forall|k: Seq<char>| #[trigger]
                x.wildcard.contains_key(k) <==> y.wildcard.contains_key(k) by {
                let m = rule_table::Matcher::Wildcard(k);
                assert(has_matcher(x, m) <==> has_matcher(y, m));
            }
            assert forall|k: Seq<char>| #[trigger] x.wildcard.contains_key(k) implies x.wildcard[k]
                == y.wildcard[k] by {
                let m = rule_table::Matcher::Wildcard(k);
                assert(has_matcher(x, m));
                assert(rule_of(x, m) == rule_of(y, m));
            }
        }
    }
}

/// A pattern can be given a rule only once, however its letters are written.
pub proof fn law_no_pattern_twice(
    maps: rule_table::RuleMaps,
    p: Seq<char>,
    a: rule_table::RuleOverride,
    q: Seq<char>,
    b: rule_table::RuleOverride,
)
    requires
        maps.add(p, a) is Ok,
        text::lowercase(text::trim(p)) == text::lowercase(text::trim(q)),
        b.conflict() is None,
    ensures
        maps.add(p, a)->Ok_0.add(q, b) == Err::<rule_table::RuleMaps, _>(
            rule_table::RuleErrorKind::Duplicate,
        ),
{
    let (x, y) = (text::trim(p), text::trim(q));
    let star = seq!['*'];
    assert(text::lowercase(x).len() == x.len());
    assert(text::lowercase(y).len() == y.len());
    assert forall|i: int| 0 <= i < x.len() implies text::lower(#[trigger] x[i]) == text::lower(
        y[i],
    ) by {
        assert(text::lowercase(x)[i] == text::lowercase(y)[i]);
    }
    assert forall|i: int| 0 <= i < x.len() implies (x[i] == '*' <==> y[i] == '*') && (x[i] == '.'
        <==> y[i] == '.') by {
        assert(text::lower(x[i]) == text::lower(y[i]));
    }
    assert(x == star <==> y == star) by {
        if x == star {
            assert(x[0] == '*');
            assert(y =~= star);
        }
        if y == star {
            assert(y[0] == '*');
            assert(x =~= star);
        }
    }
    assert(x.contains('*') <==> y.contains('*')) by {
        if x.contains('*') {
            let i = choose|i: int| 0 <= i < x.len() && x[i] == '*';
            assert(y[i] == '*');
        }
        if y.contains('*') {
            let i = choose|i: int| 0 <= i < y.len() && y[i] == '*';
            assert(x[i] == '*');
        }
    }
    if x.len() >= 2 {
        let (u, v) = (x.skip(2), y.skip(2));
        assert(text::lowercase(u) =~= text::lowercase(x).skip(2));
        assert(text::lowercase(v) =~= text::lowercase(y).skip(2));
        assert(u.contains('*') <==> v.contains('*')) by {
            if u.contains('*') {
                let i = choose|i: int| 0 <= i < u.len() && u[i] == '*';
                assert(x[i + 2] == '*');
                assert(v[i] == '*');
            }
            if v.contains('*') {
                let i = choose|i: int| 0 <= i < v.len() && v[i] == '*';
                assert(y[i + 2] == '*');
                assert(x[i + 2] == '*');
                assert(u[i] == '*');
            }
        }
    }
}

/// Whether two characters are the same but for the case of an ASCII letter.
pub open spec fn same_letter(a: char, b: char) -> bool {
    ||| a == b
    ||| 65 <= a as int <= 90 && b as int == a as int + 32
    ||| 65 <= b as int <= 90 && a as int == b as int + 32
}

/// Whether two texts are the same but for the case of ASCII letters.
pub open spec fn same_letters(a: Seq<char>, b: Seq<char>) -> bool {
    &&& a.len() == b.len()
    &&& forall|i: int| 0 <= i < a.len() ==> same_letter(#[trigger] a[i], b[i])
}

/// Two hostnames select the same rule if they are the same but for the case of ASCII letters.
pub proof fn law_letter_case_ignored(maps: rule_table::RuleMaps, a: Seq<char>, b: Seq<char>)
    requires
        same_letters(a, b),
    ensures
        maps.rule_for(a) == maps.rule_for(b),
{
    let (x, y) = (text::lowercase(a), text::lowercase(b));
    text::law_lowercase(a);
    text::law_lowercase(b);
    assert forall|i: int| 0 <= i < x.len() implies x[i] == y[i] by {
        assert(same_letter(a[i], b[i]));
        assert(b[i] == b[i]);
    }
    assert(x == y);
}

/// A hostname selects the rule for exactly that name; without one, the rule with the longest suffix
/// behind one of its dots; without one, the rule for `*`; without one, none.
pub proof fn law_rule_selected(maps: rule_table::RuleMaps, hostname: Seq<char>, key: Seq<char>)
    ensures
        ({
            let host = text::lowercase(hostname);
            let r = maps.rule_for(hostname);
            &&& maps.exact.contains_key(host) ==> r == Some(maps.exact[host])
            &&& !maps.exact.contains_key(host) && is_longest_suffix(maps, host, key) ==> r == Some(
                maps.wildcard[key],
            )
            &&& !maps.exact.contains_key(host) && (forall|k: Seq<char>| #[trigger]
                maps.wildcard.contains_key(k) ==> !ends_behind_dot(host, k)) ==> {
                &&& maps.wildcard.contains_key(Seq::empty()) ==> r == Some(
                    maps.wildcard[Seq::empty()],
                )
                &&& !maps.wildcard.contains_key(Seq::empty()) ==> r is None
            }
        }),
{
    let host = text::lowercase(hostname);
    law_longest_suffix_wins(maps, host);
    if is_longest_suffix(maps, host, key) {
        law_longest_suffix_selected(maps, host, key);
    }
}

/// A pattern without `*` stands for that hostname, `*` for every hostname, `*.` and a suffix for the
/// names behind a dot of which the suffix stands; every other pattern with a `*` is refused.
pub proof fn law_patterns(pattern: Seq<char>, suffix: Seq<char>)
    ensures
        pattern.len() > 0 && !pattern.contains('*') ==> rule_table::matcher(pattern) == Ok::<
            _,
            rule_table::RuleErrorKind,
        >(rule_table::Matcher::Exact(text::lowercase(pattern))),
        rule_table::matcher(seq!['*']) == Ok::<_, rule_table::RuleErrorKind>(
            rule_table::Matcher::Wildcard(Seq::empty()),
        ),
        suffix.len() > 0 && !suffix.contains('*') ==> rule_table::matcher(seq!['*', '.'] + suffix)
            == Ok::<_, rule_table::RuleErrorKind>(
            rule_table::Matcher::Wildcard(text::lowercase(suffix)),
        ),
        suffix.len() == 0 || suffix.contains('*') ==> rule_table::matcher(seq!['*', '.'] + suffix)
            == Err::<rule_table::Matcher, _>(rule_table::RuleErrorKind::WildcardSuffix),
        pattern.contains('*') && pattern != seq!['*'] && !(pattern.len() >= 2 && pattern[0] == '*'
            && pattern[1] == '.') ==> rule_table::matcher(pattern) == Err::<rule_table::Matcher, _>(
            rule_table::RuleErrorKind::UnsupportedWildcard,
        ),
{
    let p = seq!['*', '.'] + suffix;
    let star = seq!['*'];
    assert(p.skip(2) == suffix);
    assert(p.len() >= 2);
    assert(star.len() == 1);
    if pattern.len() > 0 && !pattern.contains('*') {
        assert(pattern[0] != '*');
        assert(star[0] == '*');
    }
}

/// A rule is added under what its trimmed pattern stands for, and nothing else changes. It is refused
/// for the first of these: an empty pattern, both an address and a resolver, nothing set, a pattern
/// that stands for nothing, and one that has a rule already.
pub proof fn law_rule_added(
    maps: rule_table::RuleMaps,
    pattern: Seq<char>,
    rule: rule_table::RuleOverride,
)
    ensures
        ({
            let p = text::trim(pattern);
            let r = maps.add(pattern, rule);
            let both = rule.direct is Some && rule.resolver is Some;
            let nothing = rule.direct is None && rule.resolver is None && !rule.fwmark_set
                && rule.tls_intercept is None;
            &&& p.len() == 0 ==> r == Err::<rule_table::RuleMaps, _>(
                rule_table::RuleErrorKind::EmptyPattern,
            )
            &&& p.len() > 0 && both ==> r == Err::<rule_table::RuleMaps, _>(
                rule_table::RuleErrorKind::DirectAndResolver,
            )
            &&& p.len() > 0 && nothing ==> r == Err::<rule_table::RuleMaps, _>(
                rule_table::RuleErrorKind::NothingSet,
            )
            &&& p.len() > 0 && !both && !nothing ==> match rule_table::matcher(p) {
                Err(kind) => r == Err::<rule_table::RuleMaps, _>(kind),
                Ok(rule_table::Matcher::Exact(host)) => {
                    &&& maps.exact.contains_key(host) ==> r == Err::<rule_table::RuleMaps, _>(
                        rule_table::RuleErrorKind::Duplicate,
                    )
                    &&& !maps.exact.contains_key(host) ==> r is Ok && (r->Ok_0).exact
                        == maps.exact.insert(host, rule) && (r->Ok_0).wildcard == maps.wildcard
                },
                Ok(rule_table::Matcher::Wildcard(suffix)) => {
                    &&& maps.wildcard.contains_key(suffix) ==> r == Err::<rule_table::RuleMaps, _>(
                        rule_table::RuleErrorKind::Duplicate,
                    )
                    &&& !maps.wildcard.contains_key(suffix) ==> r is Ok && (r->Ok_0).wildcard
                        == maps.wildcard.insert(suffix, rule) && (r->Ok_0).exact == maps.exact
                },
            }
        }),
{
}

/// Rules are added one by one; the first refusal is that of the list, with the trimmed pattern.
pub proof fn law_rules_one_by_one(
    rules: Seq<(Seq<char>, rule_table::RuleOverride)>,
    pattern: Seq<char>,
    rule: rule_table::RuleOverride,
)
    ensures
        rule_table::RuleMaps::of_rules(Seq::empty()) matches Ok(maps) && maps.exact == Map::<
            Seq<char>,
            rule_table::RuleOverride,
        >::empty() && maps.wildcard == Map::<Seq<char>, rule_table::RuleOverride>::empty(),
        rule_table::RuleMaps::of_rules(rules) is Err ==> rule_table::RuleMaps::of_rules(
            rules.push((pattern, rule)),
        ) == rule_table::RuleMaps::of_rules(rules),
        rule_table::RuleMaps::of_rules(rules) matches Ok(maps) ==> match maps.add(pattern, rule) {
            Ok(grown) => rule_table::RuleMaps::of_rules(rules.push((pattern, rule))) == Ok::<
                _,
                (rule_table::RuleErrorKind, Seq<char>),
            >(grown),
            Err(kind) => rule_table::RuleMaps::of_rules(rules.push((pattern, rule))) == Err::<
                rule_table::RuleMaps,
                _,
            >((kind, text::trim(pattern))),
        },
{
    assert(rules.push((pattern, rule)).drop_last() == rules);
}

/// No rule of a list is left out, and each is taken with its pattern.
pub proof fn law_list_complete(rules: Seq<(String, rule_table::RuleOverride)>)
    ensures
        rule_table::rule_views(rules).len() == rules.len(),
        forall|i: int|
            0 <= i < rules.len() ==> #[trigger] rule_table::rule_views(rules)[i] == (
                rules[i].0@,
                rules[i].1,
            ),
{
}

/// A mirror is where it is said to be: at its address, or at the client's address on its port.
pub proof fn law_mirror_target(fixed: SocketAddr, port: u16, client: SocketAddr)
    ensures
        rule_table::MirrorAddr::Fixed(fixed).target(client) == fixed,
        rule_table::MirrorAddr::Client(port).target(client).ip() == client.ip(),
        rule_table::MirrorAddr::Client(port).target(client).port() == port,
        rule_table::MirrorAddr::Client(port).target(client) == SocketAddr::of(client.ip(), port),
{
}

/// Decimal digits are worth what they are worth in base ten.
proof fn lemma_digits_worth(s: Seq<char>)
    requires
        forall|i: int| 0 <= i < s.len() ==> '0' <= #[trigger] s[i] <= '9',
    ensures
        rule_table::digits_value(s) == text::worth(s, 10),
    decreases s.len(),
{
    if s.len() > 0 {
        assert('0' <= s[s.len() - 1] <= '9');
        assert forall|i: int| 0 <= i < s.drop_last().len() implies '0' <= #[trigger] s.drop_last()[i]
            <= '9' by {
            assert('0' <= s[i] <= '9');
        }
        lemma_digits_worth(s.drop_last());
    }
}

/// `_:` and a number up to 65535 in decimal digits name the client's own address on that port; `_:` and
/// anything else name nothing; every other text names the socket address that it spells.
pub proof fn law_mirror_named(s: Seq<char>, socket: Option<SocketAddr>)
    ensures
        ({
            let own = s.len() >= 2 && s[0] == '_' && s[1] == ':';
            let port = s.skip(2);
            let digits = port.len() > 0 && (forall|i: int|
                0 <= i < port.len() ==> '0' <= #[trigger] port[i] <= '9');
            let r = rule_table::MirrorAddr::named(s, socket);
            &&& own && digits && text::worth(port, 10) <= 65535 ==> r == Some(
                rule_table::MirrorAddr::Client(text::worth(port, 10) as u16),
            )
            &&& own && (!digits || text::worth(port, 10) > 65535) ==> r is None
            &&& !own && socket is Some ==> r == Some(rule_table::MirrorAddr::Fixed(socket->0))
            &&& !own && socket is None ==> r is None
        }),
{
    let port = s.skip(2);
    if port.len() > 0 && (forall|i: int| 0 <= i < port.len() ==> '0' <= #[trigger] port[i] <= '9') {
        lemma_digits_worth(port);
    }
}

/// A refusal says what is wrong and quotes the pattern in full.
pub proof fn law_refusal_quotes_pattern(e: rule_table::RuleTableError)
    ensures
        e.kind == rule_table::RuleErrorKind::DirectAndResolver ==> e.text() == "rule '"@ + e.pattern@
            + "' cannot set both 'direct' and 'resolver'"@,
        e.kind == rule_table::RuleErrorKind::WildcardSuffix ==> e.text() == "wildcard rule '"@
            + e.pattern@ + "' must be '*.<suffix>'"@,
        e.kind == rule_table::RuleErrorKind::UnsupportedWildcard ==> e.text()
            == "unsupported wildcard pattern '"@ + e.pattern@ + "'"@,
        e.kind == rule_table::RuleErrorKind::Duplicate ==> e.text()
            == "duplicate rule for pattern '"@ + e.pattern@ + "'"@,
        e.kind == rule_table::RuleErrorKind::EmptyPattern ==> e.text()
            == "rule table contains an empty pattern"@,
        e.kind == rule_table::RuleErrorKind::NoRules ==> e.text()
            == "rule table must define at least one rule"@,
{
}

}
