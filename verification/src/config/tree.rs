//! Validation of action trees.

use vstd::prelude::*;

use crate::config::action;
use crate::config::action::{
    Action, ActionModel, ActionQuery, ActionQueryWorkspace, QueryModel,
};
use crate::config::error;
use crate::config::error::{ConfigError, Fault};
use crate::config::menu;
use crate::config::menu::MenuDefinition;
use crate::config::rules::is_given_and_empty;
use crate::config::settings;
use crate::config::settings::is_bad_command;
use crate::text;
use crate::text::{byte_size, holds_char, is_blank, same};

verus! {

/// The deepest accepted nesting of an action.
pub const MAX_ACTION_DEPTH: usize = 8;

/// The most actions accepted in one tree.
pub const MAX_ACTION_TREE_ACTIONS: usize = 128;

/// What actions may refer to.
pub ghost struct SurroundingsModel {
    pub menus: Seq<Seq<char>>,
    pub workspaces: nat,
}

/// The menus and the workspace count that actions may refer to.
pub struct Surroundings<'a> {
    /// Defined menus.
    pub menus: &'a Vec<MenuDefinition>,
    /// Number of workspaces.
    pub workspaces: usize,
}

impl<'a> View for Surroundings<'a> {
    type V = SurroundingsModel;

    open spec fn view(&self) -> SurroundingsModel {
        SurroundingsModel { menus: menu::menu_ids(self.menus@), workspaces: self.workspaces as nat }
    }
}

/// The outcome of a walk through an action tree: the first fault, and the actions seen.
pub ghost struct Walk {
    pub fault: Option<Fault>,
    pub seen: nat,
}

/// Whether a confirmation text is unusable.
pub open spec fn bad_prompt(prompt: Seq<char>) -> bool {
    text::blank(prompt) || prompt.contains('\0') || text::size(prompt) > 255
}

/// Whether a one-based workspace number is outside the configured workspaces.
pub open spec fn unknown_workspace(around: SurroundingsModel, workspace: u32) -> bool {
    workspace == 0 || workspace > around.workspaces
}

/// The fault of a reference to a workspace.
pub open spec fn workspace_fault(
    around: SurroundingsModel,
    context: Seq<char>,
    workspace: u32,
) -> Option<Fault> {
    error::fault_when(
        unknown_workspace(around, workspace),
        Fault::InvalidWorkspaceBinding {
            key: context,
            workspace,
            count: around.workspaces as usize,
        },
    )
}

/// The fault of an action on its own, its branches left aside.
pub open spec fn own_fault(
    around: SurroundingsModel,
    context: Seq<char>,
    action: ActionModel,
) -> Option<Fault> {
    match action {
        ActionModel::Execute { command, prompt, startup } => {
            if settings::bad_command(command, true) {
                Some(Fault::InvalidCommand(context))
            } else if prompt is Some && bad_prompt(prompt->Some_0) {
                Some(Fault::InvalidExecutePrompt(context))
            } else if startup is Some && !startup->Some_0.valid() {
                Some(Fault::InvalidStartupNotification(context))
            } else {
                None
            }
        },
        ActionModel::Restart { command } => error::fault_when(
            command is Some && text::blank(command->Some_0),
            Fault::EmptyRestartCommand(context),
        ),
        ActionModel::Debug { message } => error::fault_when(
            text::blank(message) || message.contains('\0') || text::size(message) > 1_024,
            Fault::InvalidDebugMessage(context),
        ),
        ActionModel::ShowMenu { menu } => error::fault_when(
            !around.menus.contains(menu),
            Fault::UnknownMenu { context, menu },
        ),
        ActionModel::Plain(Action::SwitchWorkspace { workspace }) => workspace_fault(
            around,
            context,
            workspace,
        ),
        ActionModel::Plain(Action::MoveToWorkspace { workspace, .. }) => workspace_fault(
            around,
            context,
            workspace,
        ),
        _ => None,
    }
}

/// The fault of a query's reference to a workspace beyond the configured ones.
pub open spec fn query_workspace_fault(
    around: SurroundingsModel,
    context: Seq<char>,
    workspace: u32,
) -> Option<Fault> {
    error::fault_when(
        workspace > around.workspaces,
        Fault::InvalidActionQueryWorkspace {
            context,
            workspace,
            count: around.workspaces as usize,
        },
    )
}

/// The fault of an empty pattern in a query.
pub open spec fn pattern_fault(
    context: Seq<char>,
    pattern: Option<Seq<char>>,
    field: &'static str,
) -> Option<Fault> {
    error::fault_when(
        pattern == Some(Seq::<char>::empty()),
        Fault::EmptyActionQueryPattern { context, field },
    )
}

/// The first fault of one query.
pub open spec fn query_fault(
    around: SurroundingsModel,
    context: Seq<char>,
    query: QueryModel,
) -> Option<Fault> {
    if pattern_fault(context, query.name, "name") is Some {
        pattern_fault(context, query.name, "name")
    } else if pattern_fault(context, query.class, "class") is Some {
        pattern_fault(context, query.class, "class")
    } else if pattern_fault(context, query.role, "role") is Some {
        pattern_fault(context, query.role, "role")
    } else if pattern_fault(context, query.title, "title") is Some {
        pattern_fault(context, query.title, "title")
    } else {
        error::first(
            match query.workspace {
                Some(ActionQueryWorkspace::Number(workspace)) => query_workspace_fault(
                    around,
                    context,
                    workspace.value(),
                ),
                _ => None,
            },
            match query.active_workspace {
                Some(workspace) => query_workspace_fault(around, context, workspace.value()),
                None => None,
            },
        )
    }
}

/// The check of one query.
pub open spec fn query_check(
    around: SurroundingsModel,
    context: Seq<char>,
    queries: Seq<QueryModel>,
) -> spec_fn(int) -> Option<Fault> {
    |i: int| query_fault(around, context, queries[i])
}

/// The first fault of the queries of a conditional action; there must be some.
pub open spec fn queries_fault(
    around: SurroundingsModel,
    context: Seq<char>,
    queries: Seq<QueryModel>,
) -> Option<Fault> {
    if queries.len() == 0 {
        Some(Fault::EmptyActionQueries(context))
    } else {
        error::first_fault(queries.len(), query_check(around, context, queries))
    }
}

/// Walks an action and its branches, from a nesting depth and a number of actions seen.
pub open spec fn walk(
    around: SurroundingsModel,
    context: Seq<char>,
    action: ActionModel,
    depth: nat,
    seen: nat,
) -> Walk
    decreases action,
{
    if depth > MAX_ACTION_DEPTH {
        Walk {
            fault: Some(Fault::ActionNestingTooDeep { context, depth: depth as usize }),
            seen,
        }
    } else if seen + 1 > MAX_ACTION_TREE_ACTIONS {
        Walk { fault: Some(Fault::ActionTreeTooLarge(context)), seen: seen + 1 }
    } else {
        match action {
            ActionModel::If { queries, yes, no } => {
                if queries_fault(around, context, queries) is Some {
                    Walk { fault: queries_fault(around, context, queries), seen: seen + 1 }
                } else {
                    let first = walk_all(around, context, yes, depth + 1, seen + 1);
                    if first.fault is Some {
                        first
                    } else {
                        walk_all(around, context, no, depth + 1, first.seen)
                    }
                }
            },
            ActionModel::ForEach { queries, yes, no, none } => {
                if queries_fault(around, context, queries) is Some {
                    Walk { fault: queries_fault(around, context, queries), seen: seen + 1 }
                } else {
                    let first = walk_all(around, context, yes, depth + 1, seen + 1);
                    if first.fault is Some {
                        first
                    } else {
                        let second = walk_all(around, context, no, depth + 1, first.seen);
                        if second.fault is Some {
                            second
                        } else {
                            walk_all(around, context, none, depth + 1, second.seen)
                        }
                    }
                }
            },
            _ => Walk { fault: own_fault(around, context, action), seen: seen + 1 },
        }
    }
}

/// Walks actions one after the other until one has a fault.
pub open spec fn walk_all(
    around: SurroundingsModel,
    context: Seq<char>,
    actions: Seq<ActionModel>,
    depth: nat,
    seen: nat,
) -> Walk
    decreases actions,
{
    if actions.len() == 0 {
        Walk { fault: None, seen }
    } else {
        let before = walk_all(around, context, actions.drop_last(), depth, seen);
        if before.fault is Some {
            before
        } else {
            walk(around, context, actions.last(), depth, before.seen)
        }
    }
}

/// The first fault of an action tree.
pub open spec fn action_fault(
    around: SurroundingsModel,
    context: Seq<char>,
    action: ActionModel,
) -> Option<Fault> {
    walk(around, context, action, 0, 0).fault
}

/// The check of one action of a list, each a tree of its own.
pub open spec fn action_check(
    around: SurroundingsModel,
    context: Seq<char>,
    actions: Seq<ActionModel>,
) -> spec_fn(int) -> Option<Fault> {
    |i: int| action_fault(around, context, actions[i])
}

/// The first fault of a list of actions, each a tree of its own.
pub open spec fn actions_fault(
    around: SurroundingsModel,
    context: Seq<char>,
    actions: Seq<ActionModel>,
) -> Option<Fault> {
    error::first_fault(actions.len(), action_check(around, context, actions))
}

/// A walk that has met a fault goes no further.
proof fn lemma_walk_stops(
    around: SurroundingsModel,
    context: Seq<char>,
    actions: Seq<ActionModel>,
    depth: nat,
    seen: nat,
    length: int,
)
    requires
        0 <= length <= actions.len(),
        walk_all(around, context, actions.take(length), depth, seen).fault is Some,
    ensures
        walk_all(around, context, actions, depth, seen) == walk_all(
            around,
            context,
            actions.take(length),
            depth,
            seen,
        ),
    decreases actions.len(),
{
    if length < actions.len() {
        assert(actions.drop_last().take(length) =~= actions.take(length));
        lemma_walk_stops(around, context, actions.drop_last(), depth, seen, length);
    } else {
        assert(actions.take(length) =~= actions);
    }
}

impl<'a> Surroundings<'a> {
    pub(crate) fn knows_menu(&self, wanted: &str) -> (r: bool)
        ensures
            r == self@.menus.contains(wanted@),
    {
        let mut index: usize = 0;
        while index < self.menus.len()
            invariant
                index <= self.menus.len(),
                forall|i: int| 0 <= i < index ==> self@.menus[i] != wanted@,
            decreases self.menus.len() - index,
        {
            assert(self@.menus[index as int] == self.menus@[index as int].id@);
            if same(self.menus[index].id.as_str(), wanted) {
                return true;
            }
            index = index + 1;
        }
        false
    }

    fn validate_workspace(&self, workspace: u32, context: &String) -> (outcome: Result<
        (),
        ConfigError,
    >)
        ensures
            error::fault_in(outcome) == workspace_fault(self@, context@, workspace),
    {
        if workspace == 0 || workspace as u64 > self.workspaces as u64 {
            return Err(
                ConfigError::InvalidWorkspaceBinding {
                    key: context.clone(),
                    workspace,
                    count: self.workspaces,
                },
            );
        }
        Ok(())
    }

    fn validate_query(&self, query: &ActionQuery, context: &String) -> (outcome: Result<
        (),
        ConfigError,
    >)
        ensures
            error::fault_in(outcome) == query_fault(self@, context@, query.model()),
    {
        if is_given_and_empty(&query.name) {
            return Err(
                ConfigError::EmptyActionQueryPattern { context: context.clone(), field: "name" },
            );
        }
        if is_given_and_empty(&query.class) {
            return Err(
                ConfigError::EmptyActionQueryPattern { context: context.clone(), field: "class" },
            );
        }
        if is_given_and_empty(&query.role) {
            return Err(
                ConfigError::EmptyActionQueryPattern { context: context.clone(), field: "role" },
            );
        }
        if is_given_and_empty(&query.title) {
            return Err(
                ConfigError::EmptyActionQueryPattern { context: context.clone(), field: "title" },
            );
        }
        if let Some(ActionQueryWorkspace::Number(workspace)) = query.workspace {
            let workspace = workspace.get();
            if workspace as u64 > self.workspaces as u64 {
                return Err(
                    ConfigError::InvalidActionQueryWorkspace {
                        context: context.clone(),
                        workspace,
                        count: self.workspaces,
                    },
                );
            }
        }
        if let Some(workspace) = query.active_workspace {
            let workspace = workspace.get();
            if workspace as u64 > self.workspaces as u64 {
                return Err(
                    ConfigError::InvalidActionQueryWorkspace {
                        context: context.clone(),
                        workspace,
                        count: self.workspaces,
                    },
                );
            }
        }
        Ok(())
    }

    fn validate_action_queries(
        &self,
        queries: &Vec<ActionQuery>,
        context: &String,
    ) -> (outcome: Result<(), ConfigError>)
        ensures
            error::fault_in(outcome) == queries_fault(
                self@,
                context@,
                action::query_models(queries@),
            ),
    {
        if queries.len() == 0 {
            return Err(ConfigError::EmptyActionQueries(context.clone()));
        }
        let ghost models = action::query_models(queries@);
        let ghost check = query_check(self@, context@, models);
        let mut index: usize = 0;
        while index < queries.len()
            invariant
                index <= queries.len(),
                queries.len() > 0,
                models == action::query_models(queries@),
                check == query_check(self@, context@, models),
                error::first_fault(index as nat, check) is None,
            decreases queries.len() - index,
        {
            assert(models[index as int] == queries@[index as int].model());
            if let Err(error) = self.validate_query(&queries[index], context) {
                proof {
                    assert(check(index as int) == Some(error@));
                    error::lemma_first_fault((index + 1) as nat, models.len(), check);
                }
                return Err(error);
            }
            assert(check(index as int) is None);
            index = index + 1;
        }
        Ok(())
    }

    fn validate_own(&self, action: &Action, context: &String) -> (outcome: Result<(), ConfigError>)
        requires
            !(action.model() is If),
            !(action.model() is ForEach),
        ensures
            error::fault_in(outcome) == own_fault(self@, context@, action.model()),
    {
        match action {
            Action::Execute { command, prompt, startup_notify } => {
                if is_bad_command(command.as_str(), true) {
                    return Err(ConfigError::InvalidCommand(context.clone()));
                }
                if let Some(prompt) = prompt {
                    if is_blank(prompt.as_str()) || holds_char(prompt.as_str(), '\0') || byte_size(
                        prompt.as_str(),
                    ) > 255 {
                        return Err(ConfigError::InvalidExecutePrompt(context.clone()));
                    }
                }
                if let Some(notification) = startup_notify {
                    if !notification.is_valid() {
                        return Err(ConfigError::InvalidStartupNotification(context.clone()));
                    }
                }
                Ok(())
            },
            Action::Restart { command: Some(command) } => {
                if is_blank(command.as_str()) {
                    return Err(ConfigError::EmptyRestartCommand(context.clone()));
                }
                Ok(())
            },
            Action::Debug { message } => {
                if is_blank(message.as_str()) || holds_char(message.as_str(), '\0') || byte_size(
                    message.as_str(),
                ) > 1_024 {
                    return Err(ConfigError::InvalidDebugMessage(context.clone()));
                }
                Ok(())
            },
            Action::ShowMenu { menu } => {
                if !self.knows_menu(menu.as_str()) {
                    return Err(
                        ConfigError::UnknownMenu { context: context.clone(), menu: menu.clone() },
                    );
                }
                Ok(())
            },
            Action::SwitchWorkspace { workspace } => self.validate_workspace(*workspace, context),
            Action::MoveToWorkspace { workspace, .. } => self.validate_workspace(
                *workspace,
                context,
            ),
            _ => Ok(()),
        }
    }

    fn validate_branch(
        &self,
        actions: &Vec<Action>,
        context: &String,
        depth: usize,
        seen: &mut usize,
    ) -> (outcome: Result<(), ConfigError>)
        requires
            depth <= MAX_ACTION_DEPTH + 1,
            *old(seen) <= MAX_ACTION_TREE_ACTIONS,
        ensures
            ({
                let walked = walk_all(
                    self@,
                    context@,
                    action::action_models(actions@),
                    depth as nat,
                    *old(seen) as nat,
                );
                &&& error::fault_in(outcome) == walked.fault
                &&& outcome is Ok ==> *final(seen) == walked.seen && *final(seen)
                    <= MAX_ACTION_TREE_ACTIONS
            }),
        decreases actions,
    {
        let ghost models = action::action_models(actions@);
        let ghost start = *seen as nat;
        let mut index: usize = 0;
        proof {
            action::lemma_action_models(actions@);
            assert(models.take(0) =~= Seq::empty());
        }
        while index < actions.len()
            invariant
                index <= actions.len(),
                depth <= MAX_ACTION_DEPTH + 1,
                *seen <= MAX_ACTION_TREE_ACTIONS,
                models == action::action_models(actions@),
                models.len() == actions.len(),
                forall|i: int|
                    0 <= i < actions@.len() ==> #[trigger] models[i] == actions@[i].model(),
                start == *old(seen),
                walk_all(self@, context@, models.take(index as int), depth as nat, start) == (
                Walk { fault: None, seen: *seen as nat }),
            decreases actions.len() - index,
        {
            assert(models.take(index + 1).drop_last() =~= models.take(index as int));
            assert(models[index as int] == actions@[index as int].model());
            if let Err(error) = self.validate_action_tree(&actions[index], context, depth, seen) {
                proof {
                    lemma_walk_stops(self@, context@, models, depth as nat, start, index + 1);
                }
                return Err(error);
            }
            index = index + 1;
        }
        assert(models.take(index as int) =~= models);
        Ok(())
    }

    fn validate_action_tree(
        &self,
        action: &Action,
        context: &String,
        depth: usize,
        seen: &mut usize,
    ) -> (outcome: Result<(), ConfigError>)
        requires
            depth <= MAX_ACTION_DEPTH + 1,
            *old(seen) <= MAX_ACTION_TREE_ACTIONS,
        ensures
            ({
                let walked = walk(
                    self@,
                    context@,
                    action.model(),
                    depth as nat,
                    *old(seen) as nat,
                );
                &&& error::fault_in(outcome) == walked.fault
                &&& outcome is Ok ==> *final(seen) == walked.seen && *final(seen)
                    <= MAX_ACTION_TREE_ACTIONS
            }),
        decreases action,
    {
        if depth > MAX_ACTION_DEPTH {
            return Err(ConfigError::ActionNestingTooDeep { context: context.clone(), depth });
        }
        *seen = *seen + 1;
        if *seen > MAX_ACTION_TREE_ACTIONS {
            return Err(ConfigError::ActionTreeTooLarge(context.clone()));
        }
        match action {
            Action::If { queries, then_actions, else_actions } => {
                if let Err(error) = self.validate_action_queries(queries, context) {
                    return Err(error);
                }
                if let Err(error) = self.validate_branch(then_actions, context, depth + 1, seen) {
                    return Err(error);
                }
                self.validate_branch(else_actions, context, depth + 1, seen)
            },
            Action::ForEach { queries, then_actions, else_actions, none } => {
                if let Err(error) = self.validate_action_queries(queries, context) {
                    return Err(error);
                }
                if let Err(error) = self.validate_branch(then_actions, context, depth + 1, seen) {
                    return Err(error);
                }
                if let Err(error) = self.validate_branch(else_actions, context, depth + 1, seen) {
                    return Err(error);
                }
                self.validate_branch(none, context, depth + 1, seen)
            },
            _ => self.validate_own(action, context),
        }
    }

    /// Checks a list of actions, each a tree of its own; the context says where they stand.
    ///
    /// # Errors
    ///
    /// Returns the first problem found.
    pub fn validate_actions(&self, actions: &Vec<Action>, context: &String) -> (outcome: Result<
        (),
        ConfigError,
    >)
        ensures
            error::fault_in(outcome) == actions_fault(
                self@,
                context@,
                action::action_models(actions@),
            ),
    {
        let ghost models = action::action_models(actions@);
        let ghost check = action_check(self@, context@, models);
        proof {
            action::lemma_action_models(actions@);
        }
        let mut index: usize = 0;
        while index < actions.len()
            invariant
                index <= actions.len(),
                models == action::action_models(actions@),
                models.len() == actions.len(),
                forall|i: int|
                    0 <= i < actions@.len() ==> #[trigger] models[i] == actions@[i].model(),
                check == action_check(self@, context@, models),
                error::first_fault(index as nat, check) is None,
            decreases actions.len() - index,
        {
            assert(models[index as int] == actions@[index as int].model());
            let mut seen: usize = 0;
            if let Err(error) = self.validate_action_tree(&actions[index], context, 0, &mut seen) {
                proof {
                    assert(check(index as int) == Some(error@));
                    error::lemma_first_fault((index + 1) as nat, models.len(), check);
                }
                return Err(error);
            }
            assert(check(index as int) is None);
            index = index + 1;
        }
        Ok(())
    }
}

/// How many levels of actions stand below an action.
pub open spec fn height(action: ActionModel) -> nat
    decreases action,
{
    match action {
        ActionModel::If { yes, no, .. } => taller(heights(yes), heights(no)),
        ActionModel::ForEach { yes, no, none, .. } => taller(
            heights(yes),
            taller(heights(no), heights(none)),
        ),
        _ => 0,
    }
}

/// How many levels of actions branches hold.
pub open spec fn heights(actions: Seq<ActionModel>) -> nat
    decreases actions,
{
    if actions.len() == 0 {
        0
    } else {
        taller(heights(actions.drop_last()), 1 + height(actions.last()))
    }
}

/// The greater of two heights.
pub open spec fn taller(left: nat, right: nat) -> nat {
    if left >= right {
        left
    } else {
        right
    }
}

/// How many actions a tree holds.
pub open spec fn weight(action: ActionModel) -> nat
    decreases action,
{
    match action {
        ActionModel::If { yes, no, .. } => 1 + weights(yes) + weights(no),
        ActionModel::ForEach { yes, no, none, .. } => 1 + weights(yes) + weights(no) + weights(
            none,
        ),
        _ => 1,
    }
}

/// How many actions a list of trees holds.
pub open spec fn weights(actions: Seq<ActionModel>) -> nat
    decreases actions,
{
    if actions.len() == 0 {
        0
    } else {
        weights(actions.drop_last()) + weight(actions.last())
    }
}

proof fn lemma_walked_tree(
    around: SurroundingsModel,
    context: Seq<char>,
    action: ActionModel,
    depth: nat,
    seen: nat,
)
    requires
        walk(around, context, action, depth, seen).fault is None,
    ensures
        walk(around, context, action, depth, seen).seen == seen + weight(action),
        walk(around, context, action, depth, seen).seen <= MAX_ACTION_TREE_ACTIONS,
        depth + height(action) <= MAX_ACTION_DEPTH,
    decreases action,
{
    match action {
        ActionModel::If { queries, yes, no } => {
            lemma_walked_branch(around, context, yes, depth + 1, seen + 1);
            let first = walk_all(around, context, yes, depth + 1, seen + 1);
            lemma_walked_branch(around, context, no, depth + 1, first.seen);
        },
        ActionModel::ForEach { queries, yes, no, none } => {
            lemma_walked_branch(around, context, yes, depth + 1, seen + 1);
            let first = walk_all(around, context, yes, depth + 1, seen + 1);
            lemma_walked_branch(around, context, no, depth + 1, first.seen);
            let second = walk_all(around, context, no, depth + 1, first.seen);
            lemma_walked_branch(around, context, none, depth + 1, second.seen);
        },
        _ => {},
    }
}

proof fn lemma_walked_branch(
    around: SurroundingsModel,
    context: Seq<char>,
    actions: Seq<ActionModel>,
    depth: nat,
    seen: nat,
)
    requires
        walk_all(around, context, actions, depth, seen).fault is None,
    ensures
        walk_all(around, context, actions, depth, seen).seen == seen + weights(actions),
        actions.len() > 0 ==> walk_all(around, context, actions, depth, seen).seen
            <= MAX_ACTION_TREE_ACTIONS,
        actions.len() > 0 ==> depth + heights(actions) <= MAX_ACTION_DEPTH + 1,
        actions.len() == 0 ==> heights(actions) == 0,
    decreases actions,
{
    if actions.len() > 0 {
        let before = actions.drop_last();
        lemma_walked_branch(around, context, before, depth, seen);
        let walked = walk_all(around, context, before, depth, seen);
        lemma_walked_tree(around, context, actions.last(), depth, walked.seen);
    }
}

/// An accepted action has at most eight levels of actions below it, and its tree holds at most
/// 128 actions.
pub proof fn law_accepted_trees_are_bounded(
    around: SurroundingsModel,
    context: Seq<char>,
    action: ActionModel,
)
    requires
        action_fault(around, context, action) is None,
    ensures
        weight(action) <= MAX_ACTION_TREE_ACTIONS,
        height(action) <= MAX_ACTION_DEPTH,
{
    lemma_walked_tree(around, context, action, 0, 0);
}

} // verus!
