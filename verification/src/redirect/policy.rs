//! Admission of the routing rules. This is no firewall or classifier authority.
use crate::redirect::message::{AddressFamily, RuleAction, RuleAttribute, RuleMessage};
use vstd::prelude::*;

verus! {

#[derive(Clone, Copy, Debug, PartialEq, Eq, Structural)]
pub enum RoutingPolicyState {
    StandardRules,
    UnsupportedRule,
    NonstandardOrder,
    IncompleteRules,
}

/// The three lookups of the standard rule set.
#[derive(Clone, Copy, Debug, PartialEq, Eq, Structural)]
pub enum Lookup {
    Local,
    Main,
    Default,
}

/// What the attributes of a rule say. `supported` is lost at the first attribute
/// that selects traffic, or that repeats the table or the priority.
pub struct RuleScan {
    pub supported: bool,
    pub table: Option<u32>,
    pub priority: Option<u32>,
}

/// What one more attribute adds.
pub open spec fn scan_rule_attribute(scan: RuleScan, attribute: RuleAttribute) -> RuleScan {
    match attribute {
        RuleAttribute::Table(value) if scan.table is None => RuleScan {
            table: Some(value),
            ..scan
        },
        RuleAttribute::Priority(value) if scan.priority is None => RuleScan {
            priority: Some(value),
            ..scan
        },
        RuleAttribute::Protocol(_) => scan,
        RuleAttribute::SuppressPrefixLen(value) if value == u32::MAX => scan,
        _ => RuleScan { supported: false, ..scan },
    }
}

/// What the attributes of a rule say, read in order.
pub open spec fn scan_rule(attributes: Seq<RuleAttribute>) -> RuleScan
    decreases attributes.len(),
{
    if attributes.len() == 0 {
        RuleScan { supported: true, table: None, priority: None }
    } else {
        let before = scan_rule(attributes.drop_last());
        if before.supported {
            scan_rule_attribute(before, attributes.last())
        } else {
            before
        }
    }
}

/// Whether a rule has no selector in its header and looks up a table.
pub open spec fn plain_header(rule: RuleMessage) -> bool {
    &&& rule.family == AddressFamily::Inet
    &&& rule.src_len == 0
    &&& rule.dst_len == 0
    &&& rule.tos == 0
    &&& rule.action == RuleAction::ToTable
    &&& rule.flags == 0
}

/// The table that a rule looks up.
pub open spec fn rule_table(rule: RuleMessage) -> u32 {
    match scan_rule(rule.attributes@).table {
        Some(table) => table,
        None => rule.table as u32,
    }
}

/// Whether a rule is an unconditional table lookup: no selectors, and a header
/// that agrees with the table attribute.
pub open spec fn unconditional(rule: RuleMessage) -> bool {
    &&& plain_header(rule)
    &&& scan_rule(rule.attributes@).supported
    &&& rule.table == 0 || rule.table as u32 == rule_table(rule)
}

/// The standard lookup at a table and priority.
pub open spec fn standard_lookup(table: u32, priority: u32) -> Option<Lookup> {
    if table == 255 && priority == 0 {
        Some(Lookup::Local)
    } else if table == 254 && priority == 32766 {
        Some(Lookup::Main)
    } else if table == 253 && priority == 32767 {
        Some(Lookup::Default)
    } else {
        None
    }
}

/// The standard lookup that a rule makes; an absent priority is zero.
pub open spec fn rule_lookup(rule: RuleMessage) -> Option<Lookup> {
    standard_lookup(
        rule_table(rule),
        match scan_rule(rule.attributes@).priority {
            Some(priority) => priority,
            None => 0,
        },
    )
}

/// The first fault of the rules, read in order.
pub open spec fn first_fault(rules: Seq<RuleMessage>) -> Option<RoutingPolicyState>
    decreases rules.len(),
{
    if rules.len() == 0 {
        None
    } else {
        match first_fault(rules.drop_last()) {
            Some(fault) => Some(fault),
            None => if !unconditional(rules.last()) {
                Some(RoutingPolicyState::UnsupportedRule)
            } else if rule_lookup(rules.last()) is None || makes_lookup(
                rules.drop_last(),
                rule_lookup(rules.last())->0,
            ) {
                Some(RoutingPolicyState::NonstandardOrder)
            } else {
                None
            },
        }
    }
}

/// Whether one of the rules makes a standard lookup.
pub open spec fn makes_lookup(rules: Seq<RuleMessage>, lookup: Lookup) -> bool {
    exists|i: int| 0 <= i < rules.len() && rule_lookup(#[trigger] rules[i]) == Some(lookup)
}

/// What a rule set is admitted as.
pub open spec fn inspected(rules: Seq<RuleMessage>) -> RoutingPolicyState {
    match first_fault(rules) {
        Some(fault) => fault,
        None => if makes_lookup(rules, Lookup::Local) && makes_lookup(rules, Lookup::Main) {
            RoutingPolicyState::StandardRules
        } else {
            RoutingPolicyState::IncompleteRules
        },
    }
}

proof fn lemma_scan_rule_stops(attributes: Seq<RuleAttribute>, n: int)
    requires
        0 <= n <= attributes.len(),
        !scan_rule(attributes.take(n)).supported,
    ensures
        scan_rule(attributes) == scan_rule(attributes.take(n)),
    decreases attributes.len() - n,
{
    if n < attributes.len() {
        assert(attributes.take(n + 1).drop_last() =~= attributes.take(n));
        lemma_scan_rule_stops(attributes, n + 1);
    } else {
        assert(attributes.take(n) =~= attributes);
    }
}

proof fn lemma_first_fault_stays(rules: Seq<RuleMessage>, n: int)
    requires
        0 <= n <= rules.len(),
        first_fault(rules.take(n)) is Some,
    ensures
        first_fault(rules) == first_fault(rules.take(n)),
    decreases rules.len() - n,
{
    if n < rules.len() {
        assert(rules.take(n + 1).drop_last() =~= rules.take(n));
        lemma_first_fault_stays(rules, n + 1);
    } else {
        assert(rules.take(n) =~= rules);
    }
}

fn read_rule(attributes: &[RuleAttribute]) -> (scan: RuleScan)
    ensures
        scan == scan_rule(attributes@),
{
    let mut scan = RuleScan { supported: true, table: None, priority: None };
    let mut i: usize = 0;
    while i < attributes.len()
        invariant
            i <= attributes.len(),
            scan.supported,
            scan == scan_rule(attributes@.take(i as int)),
        decreases attributes.len() - i,
    {
        assert(attributes@.take(i + 1).drop_last() =~= attributes@.take(i as int));
        match &attributes[i] {
            RuleAttribute::Table(value) if scan.table.is_none() => {
                scan.table = Some(*value);
            },
            RuleAttribute::Priority(value) if scan.priority.is_none() => {
                scan.priority = Some(*value);
            },
            RuleAttribute::Protocol(_) => {},
            RuleAttribute::SuppressPrefixLen(value) if *value == u32::MAX => {},
            _ => {
                scan.supported = false;
            },
        }
        i += 1;
        if !scan.supported {
            proof {
                lemma_scan_rule_stops(attributes@, i as int);
            }
            return scan;
        }
    }
    assert(attributes@.take(attributes@.len() as int) =~= attributes@);
    scan
}

/// Accepts only unconditional local, main and default lookups at their standard
/// priorities. The default lookup may be absent; an unknown selector is refused.
pub fn inspect_rules(rules: &[RuleMessage]) -> (state: RoutingPolicyState)
    ensures
        state == inspected(rules@),
{
    let mut local: bool = false;
    let mut main: bool = false;
    let mut default: bool = false;
    let mut i: usize = 0;
    while i < rules.len()
        invariant
            i <= rules.len(),
            first_fault(rules@.take(i as int)) is None,
            local == makes_lookup(rules@.take(i as int), Lookup::Local),
            main == makes_lookup(rules@.take(i as int), Lookup::Main),
            default == makes_lookup(rules@.take(i as int), Lookup::Default),
        decreases rules.len() - i,
    {
        let rule = &rules[i];
        let ghost before = rules@.take(i as int);
        let ghost after = rules@.take(i + 1);
        assert(after.drop_last() =~= before);
        assert(after.last() == *rule);
        let scan = read_rule(rule.attributes.as_slice());
        let table: u32 = match scan.table {
            Some(table) => table,
            None => rule.table as u32,
        };
        if rule.family != AddressFamily::Inet || rule.src_len != 0 || rule.dst_len != 0 || rule.tos
            != 0 || rule.action != RuleAction::ToTable || rule.flags != 0 || !scan.supported || (
        rule.table != 0 && rule.table as u32 != table) {
            proof {
                lemma_first_fault_stays(rules@, i + 1);
            }
            return RoutingPolicyState::UnsupportedRule;
        }
        let priority: u32 = match scan.priority {
            Some(priority) => priority,
            None => 0,
        };
        let lookup = if table == 255 && priority == 0 {
            Some(Lookup::Local)
        } else if table == 254 && priority == 32766 {
            Some(Lookup::Main)
        } else if table == 253 && priority == 32767 {
            Some(Lookup::Default)
        } else {
            None
        };
        assert(lookup == rule_lookup(*rule));
        let repeated = match lookup {
            None => true,
            Some(Lookup::Local) => local,
            Some(Lookup::Main) => main,
            Some(Lookup::Default) => default,
        };
        if repeated {
            proof {
                lemma_first_fault_stays(rules@, i + 1);
            }
            return RoutingPolicyState::NonstandardOrder;
        }
        proof {
            lemma_lookup_push(before, *rule, Lookup::Local);
            lemma_lookup_push(before, *rule, Lookup::Main);
            lemma_lookup_push(before, *rule, Lookup::Default);
            assert(before.push(*rule) =~= after);
        }
        match lookup {
            Some(Lookup::Local) => {
                local = true;
            },
            Some(Lookup::Main) => {
                main = true;
            },
            _ => {
                default = true;
            },
        }
        i += 1;
    }
    assert(rules@.take(rules@.len() as int) =~= rules@);
    if local && main {
        RoutingPolicyState::StandardRules
    } else {
        RoutingPolicyState::IncompleteRules
    }
}

proof fn lemma_lookup_push(rules: Seq<RuleMessage>, rule: RuleMessage, lookup: Lookup)
    ensures
        makes_lookup(rules.push(rule), lookup) == (makes_lookup(rules, lookup) || rule_lookup(rule)
            == Some(lookup)),
{
    let all = rules.push(rule);
    if makes_lookup(rules, lookup) {
        let i = choose|i: int|
            0 <= i < rules.len() && rule_lookup(#[trigger] rules[i]) == Some(lookup);
        assert(all[i] == rules[i]);
    }
    if rule_lookup(rule) == Some(lookup) {
        assert(all[rules.len() as int] == rule);
    }
    if makes_lookup(all, lookup) {
        let i = choose|i: int| 0 <= i < all.len() && rule_lookup(#[trigger] all[i]) == Some(lookup);
        if i < rules.len() {
            assert(rules[i] == all[i]);
        }
    }
}

// ---------------------------------------------------------------------------
// Laws
// ---------------------------------------------------------------------------

/// Whether every rule is an unconditional standard lookup and none is made twice.
pub open spec fn only_standard_lookups(rules: Seq<RuleMessage>) -> bool {
    &&& forall|i: int|
        0 <= i < rules.len() ==> unconditional(#[trigger] rules[i]) && rule_lookup(rules[i]) is Some
    &&& forall|i: int, j: int|
        0 <= i < j < rules.len() ==> rule_lookup(#[trigger] rules[i]) != rule_lookup(
            #[trigger] rules[j],
        )
}

proof fn lemma_no_fault(rules: Seq<RuleMessage>)
    ensures
        first_fault(rules) is None <==> only_standard_lookups(rules),
    decreases rules.len(),
{
    if rules.len() > 0 {
        let before = rules.drop_last();
        lemma_no_fault(before);
        let n = rules.len() - 1;
        if first_fault(rules) is None {
            assert forall|i: int, j: int| 0 <= i < j < rules.len() implies rule_lookup(
                #[trigger] rules[i],
            ) != rule_lookup(#[trigger] rules[j]) by {
                assert(before[i] == rules[i]);
                if j < n {
                    assert(before[j] == rules[j]);
                }
            }
            assert forall|i: int| 0 <= i < rules.len() implies unconditional(#[trigger] rules[i])
                && rule_lookup(rules[i]) is Some by {
                if i < n {
                    assert(before[i] == rules[i]);
                }
            }
        }
        if only_standard_lookups(rules) {
            assert forall|i: int| 0 <= i < before.len() implies unconditional(#[trigger] before[i])
                && rule_lookup(before[i]) is Some by {
                assert(before[i] == rules[i]);
            }
            assert forall|i: int, j: int| 0 <= i < j < before.len() implies rule_lookup(
                #[trigger] before[i],
            ) != rule_lookup(#[trigger] before[j]) by {
                assert(before[i] == rules[i] && before[j] == rules[j]);
            }
            assert(rules[n] == rules.last());
            let lookup = rule_lookup(rules.last())->0;
            assert forall|i: int| 0 <= i < before.len() implies rule_lookup(#[trigger] before[i])
                != Some(lookup) by {
                assert(before[i] == rules[i]);
            }
        }
    }
}

/// The rules are standard exactly if each is an unconditional standard lookup,
/// none is made twice, and the local and the main lookup are both there. The
/// order in which the kernel lists them plays no part.
pub proof fn law_standard_rules(rules: Seq<RuleMessage>)
    ensures
        inspected(rules) == RoutingPolicyState::StandardRules <==> (only_standard_lookups(rules)
            && makes_lookup(rules, Lookup::Local) && makes_lookup(rules, Lookup::Main)),
{
    lemma_no_fault(rules);
    lemma_faults(rules);
}

proof fn lemma_faults(rules: Seq<RuleMessage>)
    ensures
        first_fault(rules) matches Some(fault) ==> fault == RoutingPolicyState::UnsupportedRule
            || fault == RoutingPolicyState::NonstandardOrder,
    decreases rules.len(),
{
    if rules.len() > 0 {
        lemma_faults(rules.drop_last());
    }
}

/// A rule that is not an unconditional lookup keeps the rules from being
/// standard, wherever it stands.
pub proof fn law_selectors_fail_closed(rules: Seq<RuleMessage>, i: int)
    requires
        0 <= i < rules.len(),
        !unconditional(rules[i]),
    ensures
        inspected(rules) != RoutingPolicyState::StandardRules,
{
    law_standard_rules(rules);
}

proof fn lemma_unsupported_stays(attributes: Seq<RuleAttribute>, n: int)
    requires
        0 <= n <= attributes.len(),
        !scan_rule(attributes.take(n)).supported,
    ensures
        !scan_rule(attributes).supported,
    decreases attributes.len() - n,
{
    if n < attributes.len() {
        assert(attributes.take(n + 1).drop_last() =~= attributes.take(n));
        lemma_unsupported_stays(attributes, n + 1);
    } else {
        assert(attributes.take(n) =~= attributes);
    }
}

/// A rule that selects packets by anything at all is refused: by addresses, marks, devices,
/// users or ports, by a bit in its header, or by something that is not known.
pub proof fn law_selecting_rules_are_refused(rule: RuleMessage, a: int)
    requires
        ({
            ||| rule.family != AddressFamily::Inet
            ||| rule.src_len != 0
            ||| rule.dst_len != 0
            ||| rule.tos != 0
            ||| rule.action != RuleAction::ToTable
            ||| rule.flags != 0
            ||| 0 <= a < rule.attributes@.len() && match rule.attributes@[a] {
                RuleAttribute::Table(_) => false,
                RuleAttribute::Priority(_) => false,
                RuleAttribute::Protocol(_) => false,
                RuleAttribute::SuppressPrefixLen(value) => value != 0xffff_ffff,
                _ => true,
            }
        }),
    ensures
        !unconditional(rule),
{
    if 0 <= a < rule.attributes@.len() {
        let attributes = rule.attributes@;
        assert(attributes.take(a + 1).drop_last() =~= attributes.take(a));
        assert(attributes.take(a + 1).last() == attributes[a]);
        if plain_header(rule) {
            lemma_unsupported_stays(attributes, a + 1);
        }
    }
}

/// A plain rule with a table and a priority is the lookup of local routes at 255 and 0, of
/// the main ones at 254 and 32766, of the default ones at 253 and 32767, and none at any
/// other pair.
pub proof fn law_standard_lookups_have_their_places(rule: RuleMessage, table: u32, priority: u32)
    requires
        rule.family == AddressFamily::Inet,
        rule.src_len == 0,
        rule.dst_len == 0,
        rule.tos == 0,
        rule.action == RuleAction::ToTable,
        rule.flags == 0,
        rule.table == 0 || rule.table as u32 == table,
        rule.attributes@ == seq![RuleAttribute::Table(table), RuleAttribute::Priority(priority)],
    ensures
        unconditional(rule),
        rule_lookup(rule) == Some(Lookup::Local) <==> table == 255 && priority == 0,
        rule_lookup(rule) == Some(Lookup::Main) <==> table == 254 && priority == 32766,
        rule_lookup(rule) == Some(Lookup::Default) <==> table == 253 && priority == 32767,
{
    let all = rule.attributes@;
    let first = seq![RuleAttribute::Table(table)];
    assert(all.drop_last() =~= first);
    assert(first.drop_last() =~= Seq::empty());
    assert(all.last() == RuleAttribute::Priority(priority));
    assert(first.last() == RuleAttribute::Table(table));
    reveal_with_fuel(scan_rule, 3);
    assert(scan_rule(first) == (RuleScan {
        supported: true,
        table: Some(table),
        priority: None,
    }));
    assert(scan_rule(all) == (RuleScan {
        supported: true,
        table: Some(table),
        priority: Some(priority),
    }));
}

/// The rules that a kernel starts with are standard, with the lookup of the default routes
/// or without it; a rule at another place makes them nonstandard.
pub proof fn law_rules_of_a_fresh_kernel_are_standard(
    local: RuleMessage,
    main: RuleMessage,
    fallback: RuleMessage,
    other: RuleMessage,
)
    requires
        unconditional(local),
        unconditional(main),
        unconditional(fallback),
        unconditional(other),
        rule_lookup(local) == Some(Lookup::Local),
        rule_lookup(main) == Some(Lookup::Main),
        rule_lookup(fallback) == Some(Lookup::Default),
        rule_lookup(other) is None,
    ensures
        inspected(seq![local, main, fallback]) == RoutingPolicyState::StandardRules,
        inspected(seq![local, main]) == RoutingPolicyState::StandardRules,
        inspected(seq![local]) == RoutingPolicyState::IncompleteRules,
        inspected(seq![local, main, other]) == RoutingPolicyState::NonstandardOrder,
        inspected(seq![local, main, main]) == RoutingPolicyState::NonstandardOrder,
{
    let three = seq![local, main, fallback];
    let two = seq![local, main];
    let one = seq![local];
    law_standard_rules(three);
    law_standard_rules(two);
    assert(rule_lookup(three[0]) == Some(Lookup::Local));
    assert(rule_lookup(three[1]) == Some(Lookup::Main));
    assert(rule_lookup(two[0]) == Some(Lookup::Local));
    assert(rule_lookup(two[1]) == Some(Lookup::Main));
    assert(one.drop_last() =~= Seq::empty());
    assert(two.drop_last() =~= one);
    assert(seq![local, main, other].drop_last() =~= two);
    assert(seq![local, main, main].drop_last() =~= two);
    assert(rule_lookup(one[0]) == Some(Lookup::Local));
    reveal_with_fuel(first_fault, 4);
    assert(!makes_lookup(Seq::empty(), Lookup::Local));
    assert(!makes_lookup(one, Lookup::Main));
    assert(first_fault(one) is None);
    assert(first_fault(two) is None);
    assert(makes_lookup(two, Lookup::Main));
}

} // verus!
