//! Checking provider tool calls and planning their dispatch before they reach the tools.

use vstd::prelude::*;

use crate::json::is_object;
use crate::text_collections::{set_contains, set_insert, text_set};
use crate::tool_call::ToolCall;

verus! {

/// The permission level a tool is registered with.
#[derive(Debug, Clone, Copy, PartialEq, Eq, Structural)]
pub enum ToolPermission {
    /// The tool only reads.
    ReadOnly,
    /// Every call needs the user's approval.
    ApprovalRequired,
    /// Policy forbids the tool.
    Deny,
}

/// What the registry declares of one tool: its name, permission, timeout and output limit.
#[derive(Debug, Clone, PartialEq, Eq)]
pub struct ToolDefinition {
    pub name: String,
    pub permission: ToolPermission,
    pub timeout_ms: u64,
    pub output_limit: usize,
}

/// A tool definition with its name taken as a character sequence.
pub struct ToolDefinitionView {
    pub name: Seq<char>,
    pub permission: ToolPermission,
    pub timeout_ms: u64,
    pub output_limit: usize,
}

impl View for ToolDefinition {
    type V = ToolDefinitionView;

    open spec fn view(&self) -> ToolDefinitionView {
        ToolDefinitionView {
            name: self.name@,
            permission: self.permission,
            timeout_ms: self.timeout_ms,
            output_limit: self.output_limit,
        }
    }
}

impl ToolDefinition {
    /// The definition of tool `name`.
    pub fn new(name: &str, permission: ToolPermission, timeout_ms: u64, output_limit: usize) -> (r:
        ToolDefinition)
        ensures
            r@ == (ToolDefinitionView { name: name@, permission, timeout_ms, output_limit }),
    {
        ToolDefinition { name: name.to_owned(), permission, timeout_ms, output_limit }
    }
}

/// The definition named `name` among `defs`, the first if there were several.
pub open spec fn find_definition(defs: Seq<ToolDefinitionView>, name: Seq<char>) -> Option<
    ToolDefinitionView,
>
    decreases defs.len(),
{
    if defs.len() == 0 {
        None
    } else if defs[0].name == name {
        Some(defs[0])
    } else {
        find_definition(defs.drop_first(), name)
    }
}

/// The tools that can be dispatched, each under its own name.
#[derive(Debug, Clone)]
pub struct ToolRegistry {
    definitions: Vec<ToolDefinition>,
}

impl View for ToolRegistry {
    type V = Seq<ToolDefinitionView>;

    closed spec fn view(&self) -> Seq<ToolDefinitionView> {
        self.definitions@.map_values(|d: ToolDefinition| d@)
    }
}

impl ToolRegistry {
    /// A registry with no tool.
    pub fn new() -> (r: ToolRegistry)
        ensures
            r@.len() == 0,
    {
        let r = ToolRegistry { definitions: Vec::new() };
        assert(r@ =~= Seq::<ToolDefinitionView>::empty());
        r
    }

    /// Adds `definition` unless a tool of that name is registered already; tells whether it
    /// was added.
    pub fn register(&mut self, definition: ToolDefinition) -> (r: bool)
        ensures
            r == (find_definition(old(self)@, definition@.name) is None),
            r ==> final(self)@ == old(self)@.push(definition@),
            !r ==> final(self)@ == old(self)@,
    {
        if self.get(definition.name.as_str()).is_some() {
            return false;
        }
        let ghost before = self@;
        self.definitions.push(definition);
        assert(self@ =~= before.push(definition@));
        true
    }

    /// The definition of the tool `name`.
    pub fn get(&self, name: &str) -> (r: Option<&ToolDefinition>)
        ensures
            match r {
                Some(d) => find_definition(self@, name@) == Some(d@),
                None => find_definition(self@, name@) is None,
            },
    {
        let mut i: usize = 0;
        assert(self@.skip(0) =~= self@);
        while i < self.definitions.len()
            invariant
                i <= self@.len(),
                find_definition(self@, name@) == find_definition(self@.skip(i as int), name@),
            decreases self@.len() - i,
        {
            let ghost rest = self@.skip(i as int);
            assert(rest[0] == self.definitions@[i as int]@);
            if crate::json::str_equal(self.definitions[i].name.as_str(), name) {
                return Some(&self.definitions[i]);
            }
            assert(rest.drop_first() =~= self@.skip(i + 1));
            i = i + 1;
        }
        None
    }
}

/// A call that passed the registry checks, with what the registry declares for its tool.
#[derive(Debug, PartialEq)]
pub struct ToolDispatchPlan {
    /// The complete call the provider asked for.
    pub call: ToolCall,
    /// The permission level the registry declares.
    pub permission: ToolPermission,
    /// The timeout the registry declares.
    pub timeout_ms: u64,
    /// The output limit the registry declares.
    pub output_limit: usize,
}

/// Why a batch of calls cannot be dispatched.
#[derive(Debug, Clone, PartialEq, Eq)]
pub enum ToolDispatchError {
    DuplicateCallId(String),
    UnknownTool(String),
    DeniedTool(String),
    InvalidArguments(String),
}

/// A `ToolDispatchError` with its text taken as a character sequence.
pub enum ToolDispatchErrorView {
    DuplicateCallId(Seq<char>),
    UnknownTool(Seq<char>),
    DeniedTool(Seq<char>),
    InvalidArguments(Seq<char>),
}

impl View for ToolDispatchError {
    type V = ToolDispatchErrorView;

    open spec fn view(&self) -> ToolDispatchErrorView {
        match self {
            ToolDispatchError::DuplicateCallId(s) => ToolDispatchErrorView::DuplicateCallId(s@),
            ToolDispatchError::UnknownTool(s) => ToolDispatchErrorView::UnknownTool(s@),
            ToolDispatchError::DeniedTool(s) => ToolDispatchErrorView::DeniedTool(s@),
            ToolDispatchError::InvalidArguments(s) => ToolDispatchErrorView::InvalidArguments(s@),
        }
    }
}

/// The human-readable text of a dispatch error.
pub open spec fn dispatch_error_text(e: ToolDispatchErrorView) -> Seq<char> {
    match e {
        ToolDispatchErrorView::DuplicateCallId(s) => "重复的 tool call id："@ + s,
        ToolDispatchErrorView::UnknownTool(s) => "未知工具："@ + s,
        ToolDispatchErrorView::DeniedTool(s) => "工具被策略禁止："@ + s,
        ToolDispatchErrorView::InvalidArguments(s) => "工具参数必须是 JSON object："@ + s,
    }
}

impl ToolDispatchError {
    /// The human-readable text of this error.
    pub fn message(&self) -> (r: String)
        ensures
            r@ == dispatch_error_text(self@),
    {
        let (prefix, detail) = match self {
            ToolDispatchError::DuplicateCallId(s) => ("重复的 tool call id：", s),
            ToolDispatchError::UnknownTool(s) => ("未知工具：", s),
            ToolDispatchError::DeniedTool(s) => ("工具被策略禁止：", s),
            ToolDispatchError::InvalidArguments(s) => ("工具参数必须是 JSON object：", s),
        };
        let mut r = prefix.to_owned();
        r.append(detail.as_str());
        r
    }
}

/// The ids of the calls `calls`.
pub open spec fn call_ids(calls: Seq<ToolCall>) -> Set<Seq<char>> {
    Set::new(|k: Seq<char>| exists|i: int| 0 <= i < calls.len() && (#[trigger] calls[i]).call_id@ == k)
}

/// Why the call `call` cannot be dispatched after the calls `earlier`, if it cannot: its id
/// was used before, its arguments are not an object, its tool is unknown, or policy forbids it.
pub open spec fn call_dispatch_error(
    earlier: Seq<ToolCall>,
    call: ToolCall,
    defs: Seq<ToolDefinitionView>,
) -> Option<ToolDispatchErrorView> {
    if call_ids(earlier).contains(call.call_id@) {
        Some(ToolDispatchErrorView::DuplicateCallId(call.call_id@))
    } else if !is_object(call.arguments) {
        Some(ToolDispatchErrorView::InvalidArguments(call.call_id@))
    } else {
        match find_definition(defs, call.name@) {
            None => Some(ToolDispatchErrorView::UnknownTool(call.name@)),
            Some(d) => if d.permission == ToolPermission::Deny {
                Some(ToolDispatchErrorView::DeniedTool(call.name@))
            } else {
                None
            },
        }
    }
}

/// The error of the first call of `calls` that cannot be dispatched, in provider order.
pub open spec fn batch_dispatch_error(calls: Seq<ToolCall>, defs: Seq<ToolDefinitionView>) -> Option<
    ToolDispatchErrorView,
>
    decreases calls.len(),
{
    if calls.len() == 0 {
        None
    } else {
        match batch_dispatch_error(calls.drop_last(), defs) {
            Some(e) => Some(e),
            None => call_dispatch_error(calls.drop_last(), calls.last(), defs),
        }
    }
}

/// Whether `plan` is the plan of `call` under the definitions `defs`.
pub open spec fn planned_as(plan: ToolDispatchPlan, call: ToolCall, defs: Seq<ToolDefinitionView>) -> bool {
    &&& plan.call == call
    &&& find_definition(defs, call.name@) matches Some(d) && plan.permission == d.permission
        && plan.timeout_ms == d.timeout_ms && plan.output_limit == d.output_limit
}

/// Once a prefix of the calls fails, the batch fails with the same error.
proof fn lemma_batch_error_prefix(calls: Seq<ToolCall>, defs: Seq<ToolDefinitionView>, j: int)
    requires
        0 <= j <= calls.len(),
        batch_dispatch_error(calls.take(j), defs) is Some,
    ensures
        batch_dispatch_error(calls, defs) == batch_dispatch_error(calls.take(j), defs),
    decreases calls.len(),
{
    if j == calls.len() {
        assert(calls.take(j) =~= calls);
    } else {
        assert(calls.drop_last().take(j) =~= calls.take(j));
        lemma_batch_error_prefix(calls.drop_last(), defs, j);
    }
}

/// The read-only dispatcher of tool calls.
#[derive(Debug, Clone)]
pub struct ToolDispatcher {
    registry: ToolRegistry,
}

impl ToolDispatcher {
    /// A dispatcher over `registry`.
    pub fn new(registry: ToolRegistry) -> (r: ToolDispatcher)
        ensures
            r.registry_spec()@ == registry@,
    {
        ToolDispatcher { registry }
    }

    /// The registry the dispatcher plans with.
    pub closed spec fn registry_spec(&self) -> ToolRegistry {
        self.registry
    }

    /// The registry the dispatcher plans with.
    pub fn registry(&self) -> (r: &ToolRegistry)
        ensures
            r@ == self.registry_spec()@,
    {
        &self.registry
    }

    /// Checks the calls in provider order and plans them. Any failing call fails the whole
    /// batch, so that no half batch runs and the strict order of the assistant's tool calls and
    /// their tool messages is kept.
    pub fn plan(&self, calls: Vec<ToolCall>) -> (r: Result<Vec<ToolDispatchPlan>, ToolDispatchError>)
        ensures
            match batch_dispatch_error(calls@, self.registry_spec()@) {
                Some(e) => r matches Err(x) && x@ == e,
                None => r matches Ok(plans) && plans@.len() == calls@.len() && forall|i: int|
                    0 <= i < calls@.len() ==> planned_as(
                        #[trigger] plans@[i],
                        calls@[i],
                        self.registry_spec()@,
                    ),
            },
    {
        let ghost all = calls@;
        let ghost defs = self.registry@;
        let total = calls.len();
        let mut rest = calls;
        let mut seen: Vec<String> = Vec::new();
        let mut plans: Vec<ToolDispatchPlan> = Vec::new();
        let mut k: usize = 0;
        proof {
            assert(all.take(0) =~= Seq::<ToolCall>::empty());
            assert(all.skip(0) =~= all);
            assert(text_set(seen@) =~= call_ids(all.take(0)));
        }
        while rest.len() > 0
            invariant
                k <= all.len(),
                all.len() == total,
                all == calls@,
                rest@ == all.skip(k as int),
                defs == self.registry@,
                batch_dispatch_error(all.take(k as int), defs) is None,
                text_set(seen@) == call_ids(all.take(k as int)),
                plans@.len() == k,
                forall|i: int| 0 <= i < k ==> planned_as(#[trigger] plans@[i], all[i], defs),
            decreases rest@.len(),
        {
            let call = rest.remove(0);
            proof {
                assert(all[k as int] == call);
                assert(all.take(k + 1).drop_last() =~= all.take(k as int));
                assert(all.take(k + 1).last() == call);
                assert(rest@ =~= all.skip(k + 1));
            }
            if set_contains(&seen, call.call_id.as_str()) {
                proof { lemma_batch_error_prefix(all, defs, k + 1); }
                return Err(ToolDispatchError::DuplicateCallId(call.call_id));
            }
            set_insert(&mut seen, call.call_id.as_str());
            if !call.arguments.is_object() {
                proof { lemma_batch_error_prefix(all, defs, k + 1); }
                return Err(ToolDispatchError::InvalidArguments(call.call_id));
            }
            let (permission, timeout_ms, output_limit) = match self.registry.get(
                call.name.as_str(),
            ) {
                None => {
                    proof { lemma_batch_error_prefix(all, defs, k + 1); }
                    return Err(ToolDispatchError::UnknownTool(call.name));
                },
                Some(d) => (d.permission, d.timeout_ms, d.output_limit),
            };
            if permission == ToolPermission::Deny {
                proof { lemma_batch_error_prefix(all, defs, k + 1); }
                return Err(ToolDispatchError::DeniedTool(call.name));
            }
            proof {
                assert(call_ids(all.take(k + 1)) =~= call_ids(all.take(k as int)).insert(
                    call.call_id@,
                )) by {
                    assert forall|x: Seq<char>| #![auto] call_ids(all.take(k + 1)).contains(x)
                        == call_ids(all.take(k as int)).insert(call.call_id@).contains(x) by {
                        if call_ids(all.take(k + 1)).contains(x) {
                            let i = choose|i: int|
                                0 <= i < k + 1 && (#[trigger] all.take(k + 1)[i]).call_id@ == x;
                            if i < k {
                                assert(all.take(k as int)[i] == all.take(k + 1)[i]);
                            }
                        }
                        if call_ids(all.take(k as int)).contains(x) {
                            let i = choose|i: int|
                                0 <= i < k && (#[trigger] all.take(k as int)[i]).call_id@ == x;
                            assert(all.take(k as int)[i] == all.take(k + 1)[i]);
                        }
                        if x == call.call_id@ {
                            assert(all.take(k + 1)[k as int] == call);
                        }
                    }
                }
            }
            plans.push(ToolDispatchPlan { call, permission, timeout_ms, output_limit });
            k = k + 1;
        }
        proof {
            assert(all.take(k as int) =~= all);
        }
        Ok(plans)
    }
}

/// A batch in which two calls share an id is refused as a whole.
pub proof fn law_repeated_call_id_fails_batch(
    calls: Seq<ToolCall>,
    defs: Seq<ToolDefinitionView>,
    i: int,
    j: int,
)
    requires
        0 <= i < j < calls.len(),
        calls[i].call_id@ == calls[j].call_id@,
    ensures
        batch_dispatch_error(calls, defs) is Some,
{
    let prefix = calls.take(j + 1);
    assert(prefix.drop_last() =~= calls.take(j));
    assert(prefix.last() == calls[j]);
    assert(calls.take(j)[i] == calls[i]);
    assert(call_ids(calls.take(j)).contains(calls[j].call_id@));
    lemma_batch_error_prefix(calls, defs, j + 1);
}

/// A batch with any call that cannot be dispatched after the calls before it is refused as a
/// whole: no part of it is planned.
pub proof fn law_one_bad_call_fails_batch(
    calls: Seq<ToolCall>,
    defs: Seq<ToolDefinitionView>,
    j: int,
)
    requires
        0 <= j < calls.len(),
        call_dispatch_error(calls.take(j), calls[j], defs) is Some,
    ensures
        batch_dispatch_error(calls, defs) is Some,
{
    let prefix = calls.take(j + 1);
    assert(prefix.drop_last() =~= calls.take(j));
    assert(prefix.last() == calls[j]);
    lemma_batch_error_prefix(calls, defs, j + 1);
}

/// Whether every check passes on the batch `calls`: no two calls share an id, every call's
/// arguments are a JSON object, and every call names a registered tool that policy does not
/// forbid.
pub open spec fn batch_dispatchable(calls: Seq<ToolCall>, defs: Seq<ToolDefinitionView>) -> bool {
    &&& forall|i: int, j: int|
        0 <= i < j < calls.len() ==> (#[trigger] calls[i]).call_id@ != (#[trigger] calls[j]).call_id@
    &&& forall|i: int| 0 <= i < calls.len() ==> is_object((#[trigger] calls[i]).arguments)
    &&& forall|i: int|
        0 <= i < calls.len() ==> (find_definition(defs, (#[trigger] calls[i]).name@) matches Some(
            d,
        ) && d.permission != ToolPermission::Deny)
}

/// A batch is planned in full exactly when every check passes on it: then `plan` gives one
/// plan per call, in order; otherwise it refuses the whole batch.
pub proof fn law_batch_is_planned_iff_every_check_passes(
    calls: Seq<ToolCall>,
    defs: Seq<ToolDefinitionView>,
)
    ensures
        batch_dispatch_error(calls, defs) is None <==> batch_dispatchable(calls, defs),
    decreases calls.len(),
{
    if calls.len() > 0 {
        let prev = calls.drop_last();
        let last = calls.last();
        let n = calls.len() - 1;
        law_batch_is_planned_iff_every_check_passes(prev, defs);
        assert(prev =~= calls.take(n));
        if batch_dispatchable(calls, defs) {
            assert(batch_dispatchable(prev, defs)) by {
                assert forall|i: int, j: int| 0 <= i < j < prev.len() implies (
                #[trigger] prev[i]).call_id@ != (#[trigger] prev[j]).call_id@ by {
                    assert(prev[i] == calls[i] && prev[j] == calls[j]);
                }
                assert forall|i: int| 0 <= i < prev.len() implies is_object(
                    (#[trigger] prev[i]).arguments,
                ) by {
                    assert(prev[i] == calls[i]);
                }
                assert forall|i: int| 0 <= i < prev.len() implies (find_definition(
                    defs,
                    (#[trigger] prev[i]).name@,
                ) matches Some(d) && d.permission != ToolPermission::Deny) by {
                    assert(prev[i] == calls[i]);
                }
            }
            assert(!call_ids(prev).contains(last.call_id@)) by {
                if call_ids(prev).contains(last.call_id@) {
                    let i = choose|i: int| 0 <= i < prev.len() && (#[trigger] prev[i]).call_id@
                        == last.call_id@;
                    assert(prev[i] == calls[i]);
                    assert(calls[i].call_id@ != calls[n].call_id@);
                }
            }
            assert(is_object(calls[n].arguments));
            assert(find_definition(defs, calls[n].name@) matches Some(d) && d.permission
                != ToolPermission::Deny);
        } else if batch_dispatch_error(calls, defs) is None {
            assert(batch_dispatchable(prev, defs));
            let e = call_dispatch_error(prev, last, defs);
            assert(e is None);
            if exists|i: int, j: int|
                0 <= i < j < calls.len() && (#[trigger] calls[i]).call_id@ == (
                #[trigger] calls[j]).call_id@ {
                let (i, j) = choose|i: int, j: int|
                    0 <= i < j < calls.len() && (#[trigger] calls[i]).call_id@ == (
                    #[trigger] calls[j]).call_id@;
                law_repeated_call_id_fails_batch(calls, defs, i, j);
            } else if exists|i: int| 0 <= i < calls.len() && !is_object(
                (#[trigger] calls[i]).arguments,
            ) {
                let i = choose|i: int| 0 <= i < calls.len() && !is_object(
                    (#[trigger] calls[i]).arguments,
                );
                if i < n {
                    assert(prev[i] == calls[i]);
                }
            } else {
                let i = choose|i: int|
                    0 <= i < calls.len() && !(find_definition(defs, (#[trigger] calls[i]).name@) matches Some(
                        d,
                    ) && d.permission != ToolPermission::Deny);
                if i < n {
                    assert(prev[i] == calls[i]);
                }
            }
        }
    }
}

} // verus!
