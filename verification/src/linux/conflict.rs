//! Foreign rules and routes that stand in the way of return paths, in words.
use super::route::{
    foreign_conflict, route_words, validate_rules, validate_table, PolicyRule, ReturnRoute,
    RouteEntry, RouteOwnership,
};
use crate::text::{decimal, push_decimal};
use vstd::prelude::*;

verus! {

/// Something on this node that stands in the way; a warning.
#[derive(Clone, Debug)]
pub struct NodeConflict {
    pub kind: String,
    pub subject: String,
    pub message: String,
}

/// Something that stands in the way, as plain values.
pub struct NodeConflictView {
    pub kind: Seq<char>,
    pub subject: Seq<char>,
    pub message: Seq<char>,
}

impl View for NodeConflict {
    type V = NodeConflictView;

    open spec fn view(&self) -> NodeConflictView {
        NodeConflictView {
            kind: self.kind@,
            subject: self.subject@,
            message: self.message@,
        }
    }
}

/// What stands in the way, as plain values.
pub open spec fn conflict_views(conflicts: Seq<NodeConflict>) -> Seq<NodeConflictView> {
    conflicts.map_values(|conflict: NodeConflict| conflict@)
}

/// A number that may be missing, in words.
pub open spec fn maybe_words(n: Option<u32>) -> Seq<char> {
    match n {
        Some(n) => "Some("@ + decimal(n as nat) + ")"@,
        None => "None"@,
    }
}

fn push_maybe(text: &mut String, n: Option<u32>)
    ensures
        final(text)@ == old(text)@ + maybe_words(n),
{
    match n {
        Some(n) => {
            text.append("Some(");
            push_decimal(text, n as u64);
            text.append(")");
            assert(text@ =~= old(text)@ + maybe_words(Some(n)));
        },
        None => {
            text.append("None");
        },
    }
}

/// What a foreign rule does.
pub open spec fn rule_message(rule: PolicyRule) -> Seq<char> {
    "unowned policy rule conflicts with return path: pref "@ + decimal(rule.priority as nat)
        + " mark "@ + maybe_words(rule.mark) + "/"@ + maybe_words(rule.mask) + " table "@ + decimal(
        rule.table as nat,
    )
}

/// What a foreign rule does.
pub fn rule_conflict_message(rule: &PolicyRule) -> (message: String)
    ensures
        message@ == rule_message(*rule),
{
    let mut text = String::from_str("unowned policy rule conflicts with return path: pref ");
    push_decimal(&mut text, rule.priority as u64);
    text.append(" mark ");
    push_maybe(&mut text, rule.mark);
    text.append("/");
    push_maybe(&mut text, rule.mask);
    text.append(" table ");
    push_decimal(&mut text, rule.table as u64);
    text
}

/// What a foreign route does.
pub open spec fn route_message(route: RouteEntry) -> Seq<char> {
    "return table contains unowned route: "@ + route_words(route, None, None)
}

/// What a foreign route does.
pub fn route_conflict_message(route: &RouteEntry) -> (message: String)
    ensures
        message@ == route_message(*route),
{
    let mut text = String::from_str("return table contains unowned route: ");
    text.append(route.describe(None, None).as_str());
    text
}

/// The rules that stand in the way.
pub open spec fn rule_findings(
    rules: Seq<PolicyRule>,
    desired: Seq<ReturnRoute>,
    ownership: RouteOwnership,
) -> Seq<NodeConflictView>
    decreases rules.len(),
{
    if rules.len() == 0 {
        Seq::empty()
    } else {
        let before = rule_findings(rules.drop_last(), desired, ownership);
        let rule = rules.last();
        if foreign_conflict(rule, desired, ownership) {
            before.push(
                NodeConflictView {
                    kind: "route_rule"@,
                    subject: "priority "@ + decimal(rule.priority as nat),
                    message: rule_message(rule),
                },
            )
        } else {
            before
        }
    }
}

/// The routes in return tables that were not created here.
pub open spec fn route_findings(
    routes: Seq<RouteEntry>,
    ownership: RouteOwnership,
) -> Seq<NodeConflictView>
    decreases routes.len(),
{
    if routes.len() == 0 {
        Seq::empty()
    } else {
        let before = route_findings(routes.drop_last(), ownership);
        let route = routes.last();
        if ownership.has_route(route) {
            before
        } else {
            before.push(
                NodeConflictView {
                    kind: "route_table"@,
                    subject: "table "@ + decimal(route.table as nat),
                    message: route_message(route),
                },
            )
        }
    }
}

/// The tables of return routes, each once, as they come.
pub open spec fn tables_of(desired: Seq<ReturnRoute>) -> Seq<u32>
    decreases desired.len(),
{
    if desired.len() == 0 {
        Seq::empty()
    } else {
        let before = tables_of(desired.drop_last());
        let table = desired.last().table;
        if before.contains(table) {
            before
        } else {
            before.push(table)
        }
    }
}

/// The tables whose routes are to be looked at, each once, as they come.
pub fn return_tables(desired: &[ReturnRoute]) -> (tables: Vec<u32>)
    ensures
        tables@ == tables_of(desired@),
{
    let mut tables: Vec<u32> = Vec::new();
    let mut i: usize = 0;
    while i < desired.len()
        invariant
            i <= desired.len(),
            tables@ == tables_of(desired@.take(i as int)),
        decreases desired.len() - i,
    {
        assert(desired@.take(i + 1).drop_last() =~= desired@.take(i as int));
        assert(desired@.take(i + 1).last() == desired@[i as int]);
        let table: u32 = desired[i].table;
        let mut known = false;
        let mut j: usize = 0;
        while j < tables.len() && !known
            invariant
                j <= tables.len(),
                known ==> tables@.contains(table),
                !known ==> forall|k: int| 0 <= k < j ==> tables@[k] != table,
            decreases tables.len() - j,
        {
            if tables[j] == table {
                assert(tables@[j as int] == table);
                known = true;
            }
            j += 1;
        }
        if !known {
            tables.push(table);
        }
        i += 1;
    }
    assert(desired@.take(desired@.len() as int) =~= desired@);
    tables
}

fn is_conflict(rule: &PolicyRule, desired: &[ReturnRoute], ownership: &RouteOwnership) -> (b: bool)
    ensures
        b == foreign_conflict(*rule, desired@, *ownership),
{
    let mut single: Vec<PolicyRule> = Vec::new();
    single.push(*rule);
    let verdict = validate_rules(single.as_slice(), desired, ownership);
    assert(single@[0] == *rule);
    verdict.is_err()
}

fn is_foreign(route: &RouteEntry, ownership: &RouteOwnership) -> (b: bool)
    ensures
        b == !ownership.has_route(*route),
{
    let mut single: Vec<RouteEntry> = Vec::new();
    single.push(*route);
    let verdict = validate_table(single.as_slice(), ownership);
    assert(single@[0] == *route);
    verdict.is_err()
}

/// Everything that stands in the way of return paths: first rules, then routes.
/// `routes` are those of the tables that `return_tables` names.
pub fn ownership_conflicts(
    rules: &[PolicyRule],
    routes: &[RouteEntry],
    desired: &[ReturnRoute],
    ownership: &RouteOwnership,
) -> (conflicts: Vec<NodeConflict>)
    ensures
        conflict_views(conflicts@) == rule_findings(rules@, desired@, *ownership) + route_findings(
            routes@,
            *ownership,
        ),
{
    let mut conflicts: Vec<NodeConflict> = Vec::new();
    let mut i: usize = 0;
    assert(conflict_views(conflicts@) =~= Seq::<NodeConflictView>::empty());
    while i < rules.len()
        invariant
            i <= rules.len(),
            conflict_views(conflicts@) == rule_findings(
                rules@.take(i as int),
                desired@,
                *ownership,
            ),
        decreases rules.len() - i,
    {
        assert(rules@.take(i + 1).drop_last() =~= rules@.take(i as int));
        assert(rules@.take(i + 1).last() == rules@[i as int]);
        if is_conflict(&rules[i], desired, ownership) {
            let mut subject = String::from_str("priority ");
            push_decimal(&mut subject, rules[i].priority as u64);
            let conflict = NodeConflict {
                kind: String::from_str("route_rule"),
                subject,
                message: rule_conflict_message(&rules[i]),
            };
            let ghost before = conflicts@;
            let ghost view = conflict@;
            conflicts.push(conflict);
            assert(conflict_views(conflicts@) =~= conflict_views(before).push(view));
        }
        i += 1;
    }
    assert(rules@.take(rules@.len() as int) =~= rules@);
    let ghost found = rule_findings(rules@, desired@, *ownership);
    assert(found + Seq::<NodeConflictView>::empty() =~= found);
    let mut j: usize = 0;
    while j < routes.len()
        invariant
            j <= routes.len(),
            conflict_views(conflicts@) == found + route_findings(
                routes@.take(j as int),
                *ownership,
            ),
        decreases routes.len() - j,
    {
        assert(routes@.take(j + 1).drop_last() =~= routes@.take(j as int));
        assert(routes@.take(j + 1).last() == routes@[j as int]);
        if is_foreign(&routes[j], ownership) {
            let mut subject = String::from_str("table ");
            push_decimal(&mut subject, routes[j].table as u64);
            let conflict = NodeConflict {
                kind: String::from_str("route_table"),
                subject,
                message: route_conflict_message(&routes[j]),
            };
            let ghost before = conflicts@;
            let ghost seen = route_findings(routes@.take(j as int), *ownership);
            let ghost view = conflict@;
            conflicts.push(conflict);
            assert(conflict_views(conflicts@) =~= conflict_views(before).push(view));
            assert((found + seen).push(view) =~= found + seen.push(view));
        }
        j += 1;
    }
    assert(routes@.take(routes@.len() as int) =~= routes@);
    conflicts
}

/// Nothing is found where the rules and the tables are accepted, and only there.
pub proof fn law_accepted_means_no_conflict(
    rules: Seq<PolicyRule>,
    routes: Seq<RouteEntry>,
    desired: Seq<ReturnRoute>,
    ownership: RouteOwnership,
)
    ensures
        (rule_findings(rules, desired, ownership) + route_findings(routes, ownership)).len() == 0
            <==> {
            &&& forall|i: int|
                0 <= i < rules.len() ==> !foreign_conflict(#[trigger] rules[i], desired, ownership)
            &&& forall|i: int|
                0 <= i < routes.len() ==> ownership.has_route(#[trigger] routes[i])
        },
    decreases rules.len() + routes.len(),
{
    if rules.len() > 0 {
        law_accepted_means_no_conflict(rules.drop_last(), routes, desired, ownership);
        assert(rules[rules.len() - 1] == rules.last());
        if forall|i: int|
            0 <= i < rules.len() ==> !foreign_conflict(#[trigger] rules[i], desired, ownership) {
            assert forall|i: int| 0 <= i < rules.drop_last().len() implies !foreign_conflict(
                #[trigger] rules.drop_last()[i],
                desired,
                ownership,
            ) by {
                assert(rules.drop_last()[i] == rules[i]);
            }
        } else if !foreign_conflict(rules.last(), desired, ownership) {
            let k = choose|k: int|
                0 <= k < rules.len() && foreign_conflict(#[trigger] rules[k], desired, ownership);
            assert(rules.drop_last()[k] == rules[k]);
        }
    } else if routes.len() > 0 {
        law_accepted_means_no_conflict(rules, routes.drop_last(), desired, ownership);
        assert(routes[routes.len() - 1] == routes.last());
        if forall|i: int| 0 <= i < routes.len() ==> ownership.has_route(#[trigger] routes[i]) {
            assert forall|i: int| 0 <= i < routes.drop_last().len() implies ownership.has_route(
                #[trigger] routes.drop_last()[i],
            ) by {
                assert(routes.drop_last()[i] == routes[i]);
            }
        } else if ownership.has_route(routes.last()) {
            let k = choose|k: int|
                0 <= k < routes.len() && !ownership.has_route(#[trigger] routes[k]);
            assert(routes.drop_last()[k] == routes[k]);
        }
    }
}

/// A foreign rule that stands in the way is told, with its priority, its mark and its table.
pub proof fn law_foreign_rules_are_told(
    rules: Seq<PolicyRule>,
    desired: Seq<ReturnRoute>,
    ownership: RouteOwnership,
    i: int,
) -> (k: int)
    requires
        0 <= i < rules.len(),
        foreign_conflict(rules[i], desired, ownership),
    ensures
        ({
            let found = rule_findings(rules, desired, ownership);
            &&& 0 <= k < found.len()
            &&& found[k].kind == "route_rule"@
            &&& found[k].subject == "priority "@ + decimal(rules[i].priority as nat)
            &&& found[k].message == rule_message(rules[i])
        }),
    decreases rules.len(),
{
    let front = rules.drop_last();
    let before = rule_findings(front, desired, ownership);
    if i < front.len() {
        assert(front[i] == rules[i]);
        law_foreign_rules_are_told(front, desired, ownership, i)
    } else {
        before.len() as int
    }
}

/// A rule is put into words with its priority, mark and table; what is missing reads `None`.
pub proof fn law_rules_are_put_into_words(rule: PolicyRule, mark: u32, mask: u32)
    requires
        rule.mark == Some(mark),
        rule.mask == Some(mask),
    ensures
        rule_message(rule) == "unowned policy rule conflicts with return path: pref "@ + decimal(
            rule.priority as nat,
        ) + " mark "@ + ("Some("@ + decimal(mark as nat) + ")"@) + "/"@ + ("Some("@ + decimal(
            mask as nat,
        ) + ")"@) + " table "@ + decimal(rule.table as nat),
        maybe_words(None) == "None"@,
{
}

/// A route in a return table that was not created here is told, with its table.
pub proof fn law_foreign_routes_are_told(
    routes: Seq<RouteEntry>,
    ownership: RouteOwnership,
    i: int,
) -> (k: int)
    requires
        0 <= i < routes.len(),
        !ownership.has_route(routes[i]),
    ensures
        ({
            let found = route_findings(routes, ownership);
            &&& 0 <= k < found.len()
            &&& found[k].kind == "route_table"@
            &&& found[k].subject == "table "@ + decimal(routes[i].table as nat)
            &&& found[k].message == "return table contains unowned route: "@ + route_words(
                routes[i],
                None,
                None,
            )
        }),
    decreases routes.len(),
{
    let front = routes.drop_last();
    let before = route_findings(front, ownership);
    if i < front.len() {
        assert(front[i] == routes[i]);
        law_foreign_routes_are_told(front, ownership, i)
    } else {
        before.len() as int
    }
}

/// The tables of the return routes are looked at, each once, and no others.
pub proof fn law_return_tables_are_looked_at(desired: Seq<ReturnRoute>, i: int)
    ensures
        0 <= i < desired.len() ==> tables_of(desired).contains(desired[i].table),
        0 <= i < tables_of(desired).len() ==> exists|k: int|
            0 <= k < desired.len() && (#[trigger] desired[k]).table == tables_of(desired)[i],
        tables_of(desired).no_duplicates(),
    decreases desired.len(),
{
    if desired.len() > 0 {
        let front = desired.drop_last();
        let before = tables_of(front);
        let all = tables_of(desired);
        law_return_tables_are_looked_at(front, i);
        assert(desired[desired.len() - 1] == desired.last());
        if !before.contains(desired.last().table) {
            assert(all[before.len() as int] == desired.last().table);
        }
        if 0 <= i < front.len() {
            assert(front[i] == desired[i]);
            let k = choose|k: int| 0 <= k < before.len() && before[k] == desired[i].table;
            assert(all[k] == desired[i].table);
        }
        if 0 <= i < before.len() {
            let k = choose|k: int| 0 <= k < front.len() && (#[trigger] front[k]).table == before[i];
            assert(desired[k] == front[k]);
            assert(all[i] == before[i]);
        }
    }
}

} // verus!
