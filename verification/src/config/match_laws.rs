//! Laws of matching: application rules, action queries, and wildcard patterns.

use vstd::prelude::*;

use crate::config::action::{
    ActionQuery, ActionQueryContext, ActionQueryWorkspace, ActionQueryWorkspaceRelation,
};
use crate::config::amounts::Positive;
use crate::config::rules;
use crate::config::rules::{ApplicationIdentity, ApplicationMatcher, ApplicationRule};
use crate::config::wildcard;

verus! {

/// A question mark stands for exactly one byte of any kind, and a byte that is no wildcard for
/// itself in either case of a letter; neither stands for nothing.
pub proof fn law_bytes_of_patterns_stand_for_one_byte(
    pattern: Seq<u8>,
    from: int,
    value: Seq<u8>,
    at: int,
)
    requires
        0 <= from < pattern.len(),
        0 <= at <= value.len(),
        pattern[from] != 42,
    ensures
        at == value.len() ==> !wildcard::accepts(pattern, from, value, at),
        at < value.len() && pattern[from] == 63 ==> wildcard::accepts(pattern, from, value, at)
            == wildcard::accepts(pattern, from + 1, value, at + 1),
        at < value.len() && pattern[from] == value[at] ==> wildcard::accepts(
            pattern,
            from,
            value,
            at,
        ) == wildcard::accepts(pattern, from + 1, value, at + 1),
        at < value.len() && 65 <= pattern[from] <= 90 && value[at] == pattern[from] + 32
            ==> wildcard::accepts(pattern, from, value, at) == wildcard::accepts(
            pattern,
            from + 1,
            value,
            at + 1,
        ),
        at < value.len() && 97 <= pattern[from] <= 122 && value[at] == pattern[from] - 32
            ==> wildcard::accepts(pattern, from, value, at) == wildcard::accepts(
            pattern,
            from + 1,
            value,
            at + 1,
        ),
        at < value.len() && pattern[from] != 63 && pattern[from] != value[at] && !(65
            <= pattern[from] <= 90 && value[at] == pattern[from] + 32) && !(97 <= pattern[from]
            <= 122 && value[at] == pattern[from] - 32) ==> !wildcard::accepts(
            pattern,
            from,
            value,
            at,
        ),
{
    if at == value.len() {
        assert(pattern[from] != wildcard::STAR);
    }
}

/// A pattern that has come to its end accepts nothing more.
pub proof fn law_ended_patterns_accept_nothing_more(pattern: Seq<u8>, value: Seq<u8>, at: int)
    requires
        0 <= at <= value.len(),
    ensures
        wildcard::accepts(pattern, pattern.len() as int, value, at) <==> at == value.len(),
{
}

/// A matcher accepts a client exactly where each of its patterns that is given accepts the field
/// of the same name, and its kind, if given, is that of the client.
pub proof fn law_matchers_compare_fields_of_the_same_name(
    matcher: ApplicationMatcher,
    identity: ApplicationIdentity<'_>,
)
    ensures
        matcher.name matches Some(pattern) ==> !wildcard::accepted(pattern@, identity.name@)
            ==> !matcher.accepts(identity),
        matcher.class matches Some(pattern) ==> !wildcard::accepted(pattern@, identity.class@)
            ==> !matcher.accepts(identity),
        matcher.group_name matches Some(pattern)
            ==> !wildcard::accepted(pattern@, identity.group_name@)
            ==> !matcher.accepts(identity),
        matcher.group_class matches Some(pattern)
            ==> !wildcard::accepted(pattern@, identity.group_class@)
            ==> !matcher.accepts(identity),
        matcher.role matches Some(pattern) ==> !wildcard::accepted(pattern@, identity.role@)
            ==> !matcher.accepts(identity),
        matcher.title matches Some(pattern) ==> !wildcard::accepted(pattern@, identity.title@)
            ==> !matcher.accepts(identity),
        matcher.kind matches Some(kind) ==> kind != identity.kind ==> !matcher.accepts(identity),
        (matcher.name matches Some(pattern) ==> wildcard::accepted(pattern@, identity.name@))
            && (matcher.class matches Some(pattern)
                ==> wildcard::accepted(pattern@, identity.class@))
            && (matcher.group_name matches Some(pattern)
                ==> wildcard::accepted(pattern@, identity.group_name@))
            && (matcher.group_class matches Some(pattern)
                ==> wildcard::accepted(pattern@, identity.group_class@))
            && (matcher.role matches Some(pattern) ==> wildcard::accepted(pattern@, identity.role@))
            && (matcher.title matches Some(pattern)
                ==> wildcard::accepted(pattern@, identity.title@))
            && (matcher.kind matches Some(kind) ==> kind == identity.kind)
            ==> matcher.accepts(identity),
{
}

/// Whether a rule that matches gives a value.
pub open spec fn gives<T>(
    rules: Seq<ApplicationRule>,
    identity: ApplicationIdentity<'_>,
    index: int,
    value: Option<T>,
) -> bool {
    rules[index].matcher.accepts(identity) && value is Some
}

/// The last matching rule that gives a value for `workspace` decides on it, and where none does
/// there is none.
pub proof fn law_the_last_rule_decides_on_workspace(
    rules: Seq<ApplicationRule>,
    identity: ApplicationIdentity<'_>,
    at: int,
)
    ensures
        0 <= at < rules.len() && gives(rules, identity, at, rules[at].settings.workspace) && (
        forall|later: int|
            at < later < rules.len() ==> !gives(
                rules,
                identity,
                later,
                (#[trigger] rules[later]).settings.workspace,
            )) ==> rules::settled(rules, identity).workspace == rules[at].settings.workspace,
        (forall|i: int|
            0 <= i < rules.len() ==> !gives(
                rules,
                identity,
                i,
                (#[trigger] rules[i]).settings.workspace,
            )) ==> rules::settled(rules, identity).workspace is None,
    decreases rules.len(),
{
    if rules.len() > 0 {
        let shorter = rules.drop_last();
        let last = rules.len() - 1;
        assert(rules[last] == rules.last());
        law_the_last_rule_decides_on_workspace(shorter, identity, at);
        assert forall|i: int| 0 <= i < shorter.len() implies #[trigger] shorter[i] == rules[i] by {}
        if forall|i: int|
            0 <= i < rules.len() ==> !gives(
                rules,
                identity,
                i,
                (#[trigger] rules[i]).settings.workspace,
            ) {
            assert forall|i: int| 0 <= i < shorter.len() implies !gives(
                shorter,
                identity,
                i,
                (#[trigger] shorter[i]).settings.workspace,
            ) by {
                assert(!gives(rules, identity, i, rules[i].settings.workspace));
            }
            assert(!gives(rules, identity, last, rules[last].settings.workspace));
        }
        if 0 <= at < last && gives(rules, identity, at, rules[at].settings.workspace) && (
        forall|later: int|
            at < later < rules.len() ==> !gives(
                rules,
                identity,
                later,
                (#[trigger] rules[later]).settings.workspace,
            )) {
            assert(gives(shorter, identity, at, shorter[at].settings.workspace));
            assert forall|later: int| at < later < shorter.len() implies !gives(
                shorter,
                identity,
                later,
                (#[trigger] shorter[later]).settings.workspace,
            ) by {
                assert(!gives(rules, identity, later, rules[later].settings.workspace));
            }
            assert(!gives(rules, identity, last, rules[last].settings.workspace));
        }
    }
}

/// The last matching rule that gives a value for `layer` decides on it, and where none does
/// there is none.
pub proof fn law_the_last_rule_decides_on_layer(
    rules: Seq<ApplicationRule>,
    identity: ApplicationIdentity<'_>,
    at: int,
)
    ensures
        0 <= at < rules.len() && gives(rules, identity, at, rules[at].settings.layer) && (
        forall|later: int|
            at < later < rules.len() ==> !gives(
                rules,
                identity,
                later,
                (#[trigger] rules[later]).settings.layer,
            )) ==> rules::settled(rules, identity).layer == rules[at].settings.layer,
        (forall|i: int|
            0 <= i < rules.len() ==> !gives(
                rules,
                identity,
                i,
                (#[trigger] rules[i]).settings.layer,
            )) ==> rules::settled(rules, identity).layer is None,
    decreases rules.len(),
{
    if rules.len() > 0 {
        let shorter = rules.drop_last();
        let last = rules.len() - 1;
        assert(rules[last] == rules.last());
        law_the_last_rule_decides_on_layer(shorter, identity, at);
        assert forall|i: int| 0 <= i < shorter.len() implies #[trigger] shorter[i] == rules[i] by {}
        if forall|i: int|
            0 <= i < rules.len() ==> !gives(
                rules,
                identity,
                i,
                (#[trigger] rules[i]).settings.layer,
            ) {
            assert forall|i: int| 0 <= i < shorter.len() implies !gives(
                shorter,
                identity,
                i,
                (#[trigger] shorter[i]).settings.layer,
            ) by {
                assert(!gives(rules, identity, i, rules[i].settings.layer));
            }
            assert(!gives(rules, identity, last, rules[last].settings.layer));
        }
        if 0 <= at < last && gives(rules, identity, at, rules[at].settings.layer) && (
        forall|later: int|
            at < later < rules.len() ==> !gives(
                rules,
                identity,
                later,
                (#[trigger] rules[later]).settings.layer,
            )) {
            assert(gives(shorter, identity, at, shorter[at].settings.layer));
            assert forall|later: int| at < later < shorter.len() implies !gives(
                shorter,
                identity,
                later,
                (#[trigger] shorter[later]).settings.layer,
            ) by {
                assert(!gives(rules, identity, later, rules[later].settings.layer));
            }
            assert(!gives(rules, identity, last, rules[last].settings.layer));
        }
    }
}

/// The last matching rule that gives a value for `decorated` decides on it, and where none does
/// there is none.
pub proof fn law_the_last_rule_decides_on_decorated(
    rules: Seq<ApplicationRule>,
    identity: ApplicationIdentity<'_>,
    at: int,
)
    ensures
        0 <= at < rules.len() && gives(rules, identity, at, rules[at].settings.decorated) && (
        forall|later: int|
            at < later < rules.len() ==> !gives(
                rules,
                identity,
                later,
                (#[trigger] rules[later]).settings.decorated,
            )) ==> rules::settled(rules, identity).decorated == rules[at].settings.decorated,
        (forall|i: int|
            0 <= i < rules.len() ==> !gives(
                rules,
                identity,
                i,
                (#[trigger] rules[i]).settings.decorated,
            )) ==> rules::settled(rules, identity).decorated is None,
    decreases rules.len(),
{
    if rules.len() > 0 {
        let shorter = rules.drop_last();
        let last = rules.len() - 1;
        assert(rules[last] == rules.last());
        law_the_last_rule_decides_on_decorated(shorter, identity, at);
        assert forall|i: int| 0 <= i < shorter.len() implies #[trigger] shorter[i] == rules[i] by {}
        if forall|i: int|
            0 <= i < rules.len() ==> !gives(
                rules,
                identity,
                i,
                (#[trigger] rules[i]).settings.decorated,
            ) {
            assert forall|i: int| 0 <= i < shorter.len() implies !gives(
                shorter,
                identity,
                i,
                (#[trigger] shorter[i]).settings.decorated,
            ) by {
                assert(!gives(rules, identity, i, rules[i].settings.decorated));
            }
            assert(!gives(rules, identity, last, rules[last].settings.decorated));
        }
        if 0 <= at < last && gives(rules, identity, at, rules[at].settings.decorated) && (
        forall|later: int|
            at < later < rules.len() ==> !gives(
                rules,
                identity,
                later,
                (#[trigger] rules[later]).settings.decorated,
            )) {
            assert(gives(shorter, identity, at, shorter[at].settings.decorated));
            assert forall|later: int| at < later < shorter.len() implies !gives(
                shorter,
                identity,
                later,
                (#[trigger] shorter[later]).settings.decorated,
            ) by {
                assert(!gives(rules, identity, later, rules[later].settings.decorated));
            }
            assert(!gives(rules, identity, last, rules[last].settings.decorated));
        }
    }
}

/// The last matching rule that gives a value for `focus` decides on it, and where none does
/// there is none.
pub proof fn law_the_last_rule_decides_on_focus(
    rules: Seq<ApplicationRule>,
    identity: ApplicationIdentity<'_>,
    at: int,
)
    ensures
        0 <= at < rules.len() && gives(rules, identity, at, rules[at].settings.focus) && (
        forall|later: int|
            at < later < rules.len() ==> !gives(
                rules,
                identity,
                later,
                (#[trigger] rules[later]).settings.focus,
            )) ==> rules::settled(rules, identity).focus == rules[at].settings.focus,
        (forall|i: int|
            0 <= i < rules.len() ==> !gives(
                rules,
                identity,
                i,
                (#[trigger] rules[i]).settings.focus,
            )) ==> rules::settled(rules, identity).focus is None,
    decreases rules.len(),
{
    if rules.len() > 0 {
        let shorter = rules.drop_last();
        let last = rules.len() - 1;
        assert(rules[last] == rules.last());
        law_the_last_rule_decides_on_focus(shorter, identity, at);
        assert forall|i: int| 0 <= i < shorter.len() implies #[trigger] shorter[i] == rules[i] by {}
        if forall|i: int|
            0 <= i < rules.len() ==> !gives(
                rules,
                identity,
                i,
                (#[trigger] rules[i]).settings.focus,
            ) {
            assert forall|i: int| 0 <= i < shorter.len() implies !gives(
                shorter,
                identity,
                i,
                (#[trigger] shorter[i]).settings.focus,
            ) by {
                assert(!gives(rules, identity, i, rules[i].settings.focus));
            }
            assert(!gives(rules, identity, last, rules[last].settings.focus));
        }
        if 0 <= at < last && gives(rules, identity, at, rules[at].settings.focus) && (
        forall|later: int|
            at < later < rules.len() ==> !gives(
                rules,
                identity,
                later,
                (#[trigger] rules[later]).settings.focus,
            )) {
            assert(gives(shorter, identity, at, shorter[at].settings.focus));
            assert forall|later: int| at < later < shorter.len() implies !gives(
                shorter,
                identity,
                later,
                (#[trigger] shorter[later]).settings.focus,
            ) by {
                assert(!gives(rules, identity, later, rules[later].settings.focus));
            }
            assert(!gives(rules, identity, last, rules[last].settings.focus));
        }
    }
}

/// The last matching rule that gives a value for `minimized` decides on it, and where none does
/// there is none.
pub proof fn law_the_last_rule_decides_on_minimized(
    rules: Seq<ApplicationRule>,
    identity: ApplicationIdentity<'_>,
    at: int,
)
    ensures
        0 <= at < rules.len() && gives(rules, identity, at, rules[at].settings.minimized) && (
        forall|later: int|
            at < later < rules.len() ==> !gives(
                rules,
                identity,
                later,
                (#[trigger] rules[later]).settings.minimized,
            )) ==> rules::settled(rules, identity).minimized == rules[at].settings.minimized,
        (forall|i: int|
            0 <= i < rules.len() ==> !gives(
                rules,
                identity,
                i,
                (#[trigger] rules[i]).settings.minimized,
            )) ==> rules::settled(rules, identity).minimized is None,
    decreases rules.len(),
{
    if rules.len() > 0 {
        let shorter = rules.drop_last();
        let last = rules.len() - 1;
        assert(rules[last] == rules.last());
        law_the_last_rule_decides_on_minimized(shorter, identity, at);
        assert forall|i: int| 0 <= i < shorter.len() implies #[trigger] shorter[i] == rules[i] by {}
        if forall|i: int|
            0 <= i < rules.len() ==> !gives(
                rules,
                identity,
                i,
                (#[trigger] rules[i]).settings.minimized,
            ) {
            assert forall|i: int| 0 <= i < shorter.len() implies !gives(
                shorter,
                identity,
                i,
                (#[trigger] shorter[i]).settings.minimized,
            ) by {
                assert(!gives(rules, identity, i, rules[i].settings.minimized));
            }
            assert(!gives(rules, identity, last, rules[last].settings.minimized));
        }
        if 0 <= at < last && gives(rules, identity, at, rules[at].settings.minimized) && (
        forall|later: int|
            at < later < rules.len() ==> !gives(
                rules,
                identity,
                later,
                (#[trigger] rules[later]).settings.minimized,
            )) {
            assert(gives(shorter, identity, at, shorter[at].settings.minimized));
            assert forall|later: int| at < later < shorter.len() implies !gives(
                shorter,
                identity,
                later,
                (#[trigger] shorter[later]).settings.minimized,
            ) by {
                assert(!gives(rules, identity, later, rules[later].settings.minimized));
            }
            assert(!gives(rules, identity, last, rules[last].settings.minimized));
        }
    }
}

/// The last matching rule that gives a value for `shaded` decides on it, and where none does
/// there is none.
pub proof fn law_the_last_rule_decides_on_shaded(
    rules: Seq<ApplicationRule>,
    identity: ApplicationIdentity<'_>,
    at: int,
)
    ensures
        0 <= at < rules.len() && gives(rules, identity, at, rules[at].settings.shaded) && (
        forall|later: int|
            at < later < rules.len() ==> !gives(
                rules,
                identity,
                later,
                (#[trigger] rules[later]).settings.shaded,
            )) ==> rules::settled(rules, identity).shaded == rules[at].settings.shaded,
        (forall|i: int|
            0 <= i < rules.len() ==> !gives(
                rules,
                identity,
                i,
                (#[trigger] rules[i]).settings.shaded,
            )) ==> rules::settled(rules, identity).shaded is None,
    decreases rules.len(),
{
    if rules.len() > 0 {
        let shorter = rules.drop_last();
        let last = rules.len() - 1;
        assert(rules[last] == rules.last());
        law_the_last_rule_decides_on_shaded(shorter, identity, at);
        assert forall|i: int| 0 <= i < shorter.len() implies #[trigger] shorter[i] == rules[i] by {}
        if forall|i: int|
            0 <= i < rules.len() ==> !gives(
                rules,
                identity,
                i,
                (#[trigger] rules[i]).settings.shaded,
            ) {
            assert forall|i: int| 0 <= i < shorter.len() implies !gives(
                shorter,
                identity,
                i,
                (#[trigger] shorter[i]).settings.shaded,
            ) by {
                assert(!gives(rules, identity, i, rules[i].settings.shaded));
            }
            assert(!gives(rules, identity, last, rules[last].settings.shaded));
        }
        if 0 <= at < last && gives(rules, identity, at, rules[at].settings.shaded) && (
        forall|later: int|
            at < later < rules.len() ==> !gives(
                rules,
                identity,
                later,
                (#[trigger] rules[later]).settings.shaded,
            )) {
            assert(gives(shorter, identity, at, shorter[at].settings.shaded));
            assert forall|later: int| at < later < shorter.len() implies !gives(
                shorter,
                identity,
                later,
                (#[trigger] shorter[later]).settings.shaded,
            ) by {
                assert(!gives(rules, identity, later, rules[later].settings.shaded));
            }
            assert(!gives(rules, identity, last, rules[last].settings.shaded));
        }
    }
}

/// The last matching rule that gives a value for `skip_pager` decides on it, and where none does
/// there is none.
pub proof fn law_the_last_rule_decides_on_skip_pager(
    rules: Seq<ApplicationRule>,
    identity: ApplicationIdentity<'_>,
    at: int,
)
    ensures
        0 <= at < rules.len() && gives(rules, identity, at, rules[at].settings.skip_pager) && (
        forall|later: int|
            at < later < rules.len() ==> !gives(
                rules,
                identity,
                later,
                (#[trigger] rules[later]).settings.skip_pager,
            )) ==> rules::settled(rules, identity).skip_pager == rules[at].settings.skip_pager,
        (forall|i: int|
            0 <= i < rules.len() ==> !gives(
                rules,
                identity,
                i,
                (#[trigger] rules[i]).settings.skip_pager,
            )) ==> rules::settled(rules, identity).skip_pager is None,
    decreases rules.len(),
{
    if rules.len() > 0 {
        let shorter = rules.drop_last();
        let last = rules.len() - 1;
        assert(rules[last] == rules.last());
        law_the_last_rule_decides_on_skip_pager(shorter, identity, at);
        assert forall|i: int| 0 <= i < shorter.len() implies #[trigger] shorter[i] == rules[i] by {}
        if forall|i: int|
            0 <= i < rules.len() ==> !gives(
                rules,
                identity,
                i,
                (#[trigger] rules[i]).settings.skip_pager,
            ) {
            assert forall|i: int| 0 <= i < shorter.len() implies !gives(
                shorter,
                identity,
                i,
                (#[trigger] shorter[i]).settings.skip_pager,
            ) by {
                assert(!gives(rules, identity, i, rules[i].settings.skip_pager));
            }
            assert(!gives(rules, identity, last, rules[last].settings.skip_pager));
        }
        if 0 <= at < last && gives(rules, identity, at, rules[at].settings.skip_pager) && (
        forall|later: int|
            at < later < rules.len() ==> !gives(
                rules,
                identity,
                later,
                (#[trigger] rules[later]).settings.skip_pager,
            )) {
            assert(gives(shorter, identity, at, shorter[at].settings.skip_pager));
            assert forall|later: int| at < later < shorter.len() implies !gives(
                shorter,
                identity,
                later,
                (#[trigger] shorter[later]).settings.skip_pager,
            ) by {
                assert(!gives(rules, identity, later, rules[later].settings.skip_pager));
            }
            assert(!gives(rules, identity, last, rules[last].settings.skip_pager));
        }
    }
}

/// The last matching rule that gives a value for `skip_taskbar` decides on it, and where none does
/// there is none.
pub proof fn law_the_last_rule_decides_on_skip_taskbar(
    rules: Seq<ApplicationRule>,
    identity: ApplicationIdentity<'_>,
    at: int,
)
    ensures
        0 <= at < rules.len() && gives(rules, identity, at, rules[at].settings.skip_taskbar) && (
        forall|later: int|
            at < later < rules.len() ==> !gives(
                rules,
                identity,
                later,
                (#[trigger] rules[later]).settings.skip_taskbar,
            )) ==> rules::settled(rules, identity).skip_taskbar == rules[at].settings.skip_taskbar,
        (forall|i: int|
            0 <= i < rules.len() ==> !gives(
                rules,
                identity,
                i,
                (#[trigger] rules[i]).settings.skip_taskbar,
            )) ==> rules::settled(rules, identity).skip_taskbar is None,
    decreases rules.len(),
{
    if rules.len() > 0 {
        let shorter = rules.drop_last();
        let last = rules.len() - 1;
        assert(rules[last] == rules.last());
        law_the_last_rule_decides_on_skip_taskbar(shorter, identity, at);
        assert forall|i: int| 0 <= i < shorter.len() implies #[trigger] shorter[i] == rules[i] by {}
        if forall|i: int|
            0 <= i < rules.len() ==> !gives(
                rules,
                identity,
                i,
                (#[trigger] rules[i]).settings.skip_taskbar,
            ) {
            assert forall|i: int| 0 <= i < shorter.len() implies !gives(
                shorter,
                identity,
                i,
                (#[trigger] shorter[i]).settings.skip_taskbar,
            ) by {
                assert(!gives(rules, identity, i, rules[i].settings.skip_taskbar));
            }
            assert(!gives(rules, identity, last, rules[last].settings.skip_taskbar));
        }
        if 0 <= at < last && gives(rules, identity, at, rules[at].settings.skip_taskbar) && (
        forall|later: int|
            at < later < rules.len() ==> !gives(
                rules,
                identity,
                later,
                (#[trigger] rules[later]).settings.skip_taskbar,
            )) {
            assert(gives(shorter, identity, at, shorter[at].settings.skip_taskbar));
            assert forall|later: int| at < later < shorter.len() implies !gives(
                shorter,
                identity,
                later,
                (#[trigger] shorter[later]).settings.skip_taskbar,
            ) by {
                assert(!gives(rules, identity, later, rules[later].settings.skip_taskbar));
            }
            assert(!gives(rules, identity, last, rules[last].settings.skip_taskbar));
        }
    }
}

/// The last matching rule that gives a value for `fullscreen` decides on it, and where none does
/// there is none.
pub proof fn law_the_last_rule_decides_on_fullscreen(
    rules: Seq<ApplicationRule>,
    identity: ApplicationIdentity<'_>,
    at: int,
)
    ensures
        0 <= at < rules.len() && gives(rules, identity, at, rules[at].settings.fullscreen) && (
        forall|later: int|
            at < later < rules.len() ==> !gives(
                rules,
                identity,
                later,
                (#[trigger] rules[later]).settings.fullscreen,
            )) ==> rules::settled(rules, identity).fullscreen == rules[at].settings.fullscreen,
        (forall|i: int|
            0 <= i < rules.len() ==> !gives(
                rules,
                identity,
                i,
                (#[trigger] rules[i]).settings.fullscreen,
            )) ==> rules::settled(rules, identity).fullscreen is None,
    decreases rules.len(),
{
    if rules.len() > 0 {
        let shorter = rules.drop_last();
        let last = rules.len() - 1;
        assert(rules[last] == rules.last());
        law_the_last_rule_decides_on_fullscreen(shorter, identity, at);
        assert forall|i: int| 0 <= i < shorter.len() implies #[trigger] shorter[i] == rules[i] by {}
        if forall|i: int|
            0 <= i < rules.len() ==> !gives(
                rules,
                identity,
                i,
                (#[trigger] rules[i]).settings.fullscreen,
            ) {
            assert forall|i: int| 0 <= i < shorter.len() implies !gives(
                shorter,
                identity,
                i,
                (#[trigger] shorter[i]).settings.fullscreen,
            ) by {
                assert(!gives(rules, identity, i, rules[i].settings.fullscreen));
            }
            assert(!gives(rules, identity, last, rules[last].settings.fullscreen));
        }
        if 0 <= at < last && gives(rules, identity, at, rules[at].settings.fullscreen) && (
        forall|later: int|
            at < later < rules.len() ==> !gives(
                rules,
                identity,
                later,
                (#[trigger] rules[later]).settings.fullscreen,
            )) {
            assert(gives(shorter, identity, at, shorter[at].settings.fullscreen));
            assert forall|later: int| at < later < shorter.len() implies !gives(
                shorter,
                identity,
                later,
                (#[trigger] shorter[later]).settings.fullscreen,
            ) by {
                assert(!gives(rules, identity, later, rules[later].settings.fullscreen));
            }
            assert(!gives(rules, identity, last, rules[last].settings.fullscreen));
        }
    }
}

/// The last matching rule that gives a value for `maximized` decides on it, and where none does
/// there is none.
pub proof fn law_the_last_rule_decides_on_maximized(
    rules: Seq<ApplicationRule>,
    identity: ApplicationIdentity<'_>,
    at: int,
)
    ensures
        0 <= at < rules.len() && gives(rules, identity, at, rules[at].settings.maximized) && (
        forall|later: int|
            at < later < rules.len() ==> !gives(
                rules,
                identity,
                later,
                (#[trigger] rules[later]).settings.maximized,
            )) ==> rules::settled(rules, identity).maximized == rules[at].settings.maximized,
        (forall|i: int|
            0 <= i < rules.len() ==> !gives(
                rules,
                identity,
                i,
                (#[trigger] rules[i]).settings.maximized,
            )) ==> rules::settled(rules, identity).maximized is None,
    decreases rules.len(),
{
    if rules.len() > 0 {
        let shorter = rules.drop_last();
        let last = rules.len() - 1;
        assert(rules[last] == rules.last());
        law_the_last_rule_decides_on_maximized(shorter, identity, at);
        assert forall|i: int| 0 <= i < shorter.len() implies #[trigger] shorter[i] == rules[i] by {}
        if forall|i: int|
            0 <= i < rules.len() ==> !gives(
                rules,
                identity,
                i,
                (#[trigger] rules[i]).settings.maximized,
            ) {
            assert forall|i: int| 0 <= i < shorter.len() implies !gives(
                shorter,
                identity,
                i,
                (#[trigger] shorter[i]).settings.maximized,
            ) by {
                assert(!gives(rules, identity, i, rules[i].settings.maximized));
            }
            assert(!gives(rules, identity, last, rules[last].settings.maximized));
        }
        if 0 <= at < last && gives(rules, identity, at, rules[at].settings.maximized) && (
        forall|later: int|
            at < later < rules.len() ==> !gives(
                rules,
                identity,
                later,
                (#[trigger] rules[later]).settings.maximized,
            )) {
            assert(gives(shorter, identity, at, shorter[at].settings.maximized));
            assert forall|later: int| at < later < shorter.len() implies !gives(
                shorter,
                identity,
                later,
                (#[trigger] shorter[later]).settings.maximized,
            ) by {
                assert(!gives(rules, identity, later, rules[later].settings.maximized));
            }
            assert(!gives(rules, identity, last, rules[last].settings.maximized));
        }
    }
}

/// The last matching rule that gives a value for `position` decides on it, and where none does
/// there is none.
pub proof fn law_the_last_rule_decides_on_position(
    rules: Seq<ApplicationRule>,
    identity: ApplicationIdentity<'_>,
    at: int,
)
    ensures
        0 <= at < rules.len() && gives(rules, identity, at, rules[at].settings.position) && (
        forall|later: int|
            at < later < rules.len() ==> !gives(
                rules,
                identity,
                later,
                (#[trigger] rules[later]).settings.position,
            )) ==> rules::settled(rules, identity).position == rules[at].settings.position,
        (forall|i: int|
            0 <= i < rules.len() ==> !gives(
                rules,
                identity,
                i,
                (#[trigger] rules[i]).settings.position,
            )) ==> rules::settled(rules, identity).position is None,
    decreases rules.len(),
{
    if rules.len() > 0 {
        let shorter = rules.drop_last();
        let last = rules.len() - 1;
        assert(rules[last] == rules.last());
        law_the_last_rule_decides_on_position(shorter, identity, at);
        assert forall|i: int| 0 <= i < shorter.len() implies #[trigger] shorter[i] == rules[i] by {}
        if forall|i: int|
            0 <= i < rules.len() ==> !gives(
                rules,
                identity,
                i,
                (#[trigger] rules[i]).settings.position,
            ) {
            assert forall|i: int| 0 <= i < shorter.len() implies !gives(
                shorter,
                identity,
                i,
                (#[trigger] shorter[i]).settings.position,
            ) by {
                assert(!gives(rules, identity, i, rules[i].settings.position));
            }
            assert(!gives(rules, identity, last, rules[last].settings.position));
        }
        if 0 <= at < last && gives(rules, identity, at, rules[at].settings.position) && (
        forall|later: int|
            at < later < rules.len() ==> !gives(
                rules,
                identity,
                later,
                (#[trigger] rules[later]).settings.position,
            )) {
            assert(gives(shorter, identity, at, shorter[at].settings.position));
            assert forall|later: int| at < later < shorter.len() implies !gives(
                shorter,
                identity,
                later,
                (#[trigger] shorter[later]).settings.position,
            ) by {
                assert(!gives(rules, identity, later, rules[later].settings.position));
            }
            assert(!gives(rules, identity, last, rules[last].settings.position));
        }
    }
}

/// The last matching rule that gives a value for `size` decides on it, and where none does
/// there is none.
pub proof fn law_the_last_rule_decides_on_size(
    rules: Seq<ApplicationRule>,
    identity: ApplicationIdentity<'_>,
    at: int,
)
    ensures
        0 <= at < rules.len() && gives(rules, identity, at, rules[at].settings.size) && (
        forall|later: int|
            at < later < rules.len() ==> !gives(
                rules,
                identity,
                later,
                (#[trigger] rules[later]).settings.size,
            )) ==> rules::settled(rules, identity).size == rules[at].settings.size,
        (forall|i: int|
            0 <= i < rules.len() ==> !gives(
                rules,
                identity,
                i,
                (#[trigger] rules[i]).settings.size,
            )) ==> rules::settled(rules, identity).size is None,
    decreases rules.len(),
{
    if rules.len() > 0 {
        let shorter = rules.drop_last();
        let last = rules.len() - 1;
        assert(rules[last] == rules.last());
        law_the_last_rule_decides_on_size(shorter, identity, at);
        assert forall|i: int| 0 <= i < shorter.len() implies #[trigger] shorter[i] == rules[i] by {}
        if forall|i: int|
            0 <= i < rules.len() ==> !gives(
                rules,
                identity,
                i,
                (#[trigger] rules[i]).settings.size,
            ) {
            assert forall|i: int| 0 <= i < shorter.len() implies !gives(
                shorter,
                identity,
                i,
                (#[trigger] shorter[i]).settings.size,
            ) by {
                assert(!gives(rules, identity, i, rules[i].settings.size));
            }
            assert(!gives(rules, identity, last, rules[last].settings.size));
        }
        if 0 <= at < last && gives(rules, identity, at, rules[at].settings.size) && (
        forall|later: int|
            at < later < rules.len() ==> !gives(
                rules,
                identity,
                later,
                (#[trigger] rules[later]).settings.size,
            )) {
            assert(gives(shorter, identity, at, shorter[at].settings.size));
            assert forall|later: int| at < later < shorter.len() implies !gives(
                shorter,
                identity,
                later,
                (#[trigger] shorter[later]).settings.size,
            ) by {
                assert(!gives(rules, identity, later, rules[later].settings.size));
            }
            assert(!gives(rules, identity, last, rules[last].settings.size));
        }
    }
}

/// The last matching rule that gives a value for `agent_visibility` decides on it, and where none
/// does there is none.
pub proof fn law_the_last_rule_decides_on_agent_visibility(
    rules: Seq<ApplicationRule>,
    identity: ApplicationIdentity<'_>,
    at: int,
)
    ensures
        0 <= at < rules.len() && gives(rules, identity, at, rules[at].settings.agent_visibility)
            && (
        forall|later: int|
            at < later < rules.len() ==> !gives(
                rules,
                identity,
                later,
                (#[trigger] rules[later]).settings.agent_visibility,
            )) ==> rules::settled(rules, identity).agent_visibility
                == rules[at].settings.agent_visibility,
        (forall|i: int|
            0 <= i < rules.len() ==> !gives(
                rules,
                identity,
                i,
                (#[trigger] rules[i]).settings.agent_visibility,
            )) ==> rules::settled(rules, identity).agent_visibility is None,
    decreases rules.len(),
{
    if rules.len() > 0 {
        let shorter = rules.drop_last();
        let last = rules.len() - 1;
        assert(rules[last] == rules.last());
        law_the_last_rule_decides_on_agent_visibility(shorter, identity, at);
        assert forall|i: int| 0 <= i < shorter.len() implies #[trigger] shorter[i] == rules[i] by {}
        if forall|i: int|
            0 <= i < rules.len() ==> !gives(
                rules,
                identity,
                i,
                (#[trigger] rules[i]).settings.agent_visibility,
            ) {
            assert forall|i: int| 0 <= i < shorter.len() implies !gives(
                shorter,
                identity,
                i,
                (#[trigger] shorter[i]).settings.agent_visibility,
            ) by {
                assert(!gives(rules, identity, i, rules[i].settings.agent_visibility));
            }
            assert(!gives(rules, identity, last, rules[last].settings.agent_visibility));
        }
        if 0 <= at < last && gives(rules, identity, at, rules[at].settings.agent_visibility) && (
        forall|later: int|
            at < later < rules.len() ==> !gives(
                rules,
                identity,
                later,
                (#[trigger] rules[later]).settings.agent_visibility,
            )) {
            assert(gives(shorter, identity, at, shorter[at].settings.agent_visibility));
            assert forall|later: int| at < later < shorter.len() implies !gives(
                shorter,
                identity,
                later,
                (#[trigger] shorter[later]).settings.agent_visibility,
            ) by {
                assert(!gives(rules, identity, later, rules[later].settings.agent_visibility));
            }
            assert(!gives(rules, identity, last, rules[last].settings.agent_visibility));
        }
    }
}

/// A query refuses a client that differs from it in a state that it asks for: maximized means on
/// both axes, and sticky means on no workspace in particular.
pub proof fn law_queries_refuse_other_states(
    query: ActionQuery,
    context: ActionQueryContext<'_>,
    active: u32,
)
    ensures
        query.shaded matches Some(wanted) ==> wanted != (context.shaded)
            ==> !query.accepts(Some(context), active),
        query.maximized_horizontal matches Some(wanted) ==> wanted != (context.maximized_horizontal)
            ==> !query.accepts(Some(context), active),
        query.maximized_vertical matches Some(wanted) ==> wanted != (context.maximized_vertical)
            ==> !query.accepts(Some(context), active),
        query.minimized matches Some(wanted) ==> wanted != (context.minimized)
            ==> !query.accepts(Some(context), active),
        query.fullscreen matches Some(wanted) ==> wanted != (context.fullscreen)
            ==> !query.accepts(Some(context), active),
        query.focused matches Some(wanted) ==> wanted != (context.focused)
            ==> !query.accepts(Some(context), active),
        query.focusable matches Some(wanted) ==> wanted != (context.focusable)
            ==> !query.accepts(Some(context), active),
        query.urgent matches Some(wanted) ==> wanted != (context.urgent)
            ==> !query.accepts(Some(context), active),
        query.decorated matches Some(wanted) ==> wanted != (context.decorated)
            ==> !query.accepts(Some(context), active),
        query.maximized matches Some(wanted) ==> wanted != ((context.maximized_horizontal
            && context.maximized_vertical))
            ==> !query.accepts(Some(context), active),
        query.sticky matches Some(wanted) ==> wanted != (context.workspace is None)
            ==> !query.accepts(Some(context), active),
        query.name matches Some(pattern) ==> !wildcard::accepted(
            pattern@,
            context.identity.name@,
        ) ==> !query.accepts(Some(context), active),
        query.class matches Some(pattern) ==> !wildcard::accepted(
            pattern@,
            context.identity.class@,
        ) ==> !query.accepts(Some(context), active),
        query.role matches Some(pattern) ==> !wildcard::accepted(
            pattern@,
            context.identity.role@,
        ) ==> !query.accepts(Some(context), active),
        query.title matches Some(pattern) ==> !wildcard::accepted(
            pattern@,
            context.identity.title@,
        ) ==> !query.accepts(Some(context), active),
        query.kind matches Some(kind) ==> kind != context.identity.kind ==> !query.accepts(
            Some(context),
            active,
        ),
        query.output matches Some(output) ==> output.value() != context.output ==> !query.accepts(
            Some(context),
            active,
        ),
        query.active_workspace matches Some(workspace) ==> workspace.value() - 1 != active
            ==> !query.accepts(Some(context), active),
        query.workspace matches Some(workspace) ==> !workspace.holds(context) ==> !query.accepts(
            Some(context),
            active,
        ),
{
}

/// A query accepts a client that agrees with everything that it asks for.
pub proof fn law_queries_accept_what_they_ask_for(
    query: ActionQuery,
    context: ActionQueryContext<'_>,
    active: u32,
)
    requires
        query.shaded matches Some(wanted) ==> wanted == (context.shaded),
        query.maximized_horizontal matches Some(wanted)
            ==> wanted == (context.maximized_horizontal),
        query.maximized_vertical matches Some(wanted) ==> wanted == (context.maximized_vertical),
        query.minimized matches Some(wanted) ==> wanted == (context.minimized),
        query.fullscreen matches Some(wanted) ==> wanted == (context.fullscreen),
        query.focused matches Some(wanted) ==> wanted == (context.focused),
        query.focusable matches Some(wanted) ==> wanted == (context.focusable),
        query.urgent matches Some(wanted) ==> wanted == (context.urgent),
        query.decorated matches Some(wanted) ==> wanted == (context.decorated),
        query.maximized matches Some(wanted) ==> wanted == ((context.maximized_horizontal
            && context.maximized_vertical)),
        query.sticky matches Some(wanted) ==> wanted == (context.workspace is None),
        query.name matches Some(pattern) ==> wildcard::accepted(pattern@, context.identity.name@),
        query.class matches Some(pattern) ==> wildcard::accepted(pattern@, context.identity.class@),
        query.role matches Some(pattern) ==> wildcard::accepted(pattern@, context.identity.role@),
        query.title matches Some(pattern) ==> wildcard::accepted(pattern@, context.identity.title@),
        query.kind matches Some(kind) ==> kind == context.identity.kind,
        query.output matches Some(output) ==> output.value() == context.output,
        query.active_workspace matches Some(workspace) ==> workspace.value() - 1 == active,
        query.workspace matches Some(workspace) ==> workspace.holds(context),
    ensures
        query.accepts(Some(context), active),
{
}

/// A client is on the current workspace where it is on the active one or on all, on another one
/// where it is on one in particular that is not active, on the last one where it is on the one that
/// was active before, and on a numbered one, counted from one, where it is on that one or on all.
pub proof fn law_queries_know_workspaces(context: ActionQueryContext<'_>, number: Positive)
    ensures
        ({
            let current = ActionQueryWorkspace::Relative(ActionQueryWorkspaceRelation::Current);
            let other = ActionQueryWorkspace::Relative(ActionQueryWorkspaceRelation::Other);
            let last = ActionQueryWorkspace::Relative(ActionQueryWorkspaceRelation::Last);
            let numbered = ActionQueryWorkspace::Number(number);
            match context.workspace {
                None => current.holds(context) && !other.holds(context) && !last.holds(context)
                    && numbered.holds(context),
                Some(workspace) => {
                    &&& current.holds(context) <==> workspace == context.active_workspace
                    &&& other.holds(context) <==> workspace != context.active_workspace
                    &&& last.holds(context) <==> workspace == context.last_workspace
                    &&& numbered.holds(context) <==> workspace + 1 == number.value()
                },
            }
        }),
{
}

} // verus!
