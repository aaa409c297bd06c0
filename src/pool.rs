//! The pool: its options, and the decisions taken around each request —
//! which parameters to add before sending, and what to do with the key and
//! the request once the outcome is known.
use vstd::prelude::*;

use crate::domain::{Domain, KeySelector, SelectorView};
use crate::error::{ApiError, PoolError, LAST_KNOWN_CODE};
use crate::request::{parameters_view, ApiRequest};
use crate::storage::{
    edited_keys, expiry, first_selected, retained, timed_out, DomainEdit, KeyTable,
};
use crate::key::StoredKey;

verus! {

/// The scope of the upstream service that a request addresses; hooks are
/// registered per scope.
#[derive(Debug, Clone, Copy, PartialEq, Eq, Hash, Structural)]
pub enum RequestCategory {
    User,
    Faction,
    Company,
    Torn,
    Market,
    Property,
    Key,
}

/// What to do with a key when the upstream service reports an error code.
#[derive(Debug, Clone, Copy, PartialEq, Eq, Structural)]
pub enum ErrorAction {
    /// Delete the key, and retry with another.
    Remove,
    /// Withhold the key for this many seconds, and retry with another.
    CooldownFor(u64),
    /// Withhold the key until the next minute starts, and retry.
    CooldownUntilNextMinute,
    /// Withhold the key until the next day starts, and retry.
    CooldownUntilNextDay,
    /// Hand the error to the caller.
    Surface,
}

/// What a check of a response asks to be done with the key that fetched it.
#[derive(Debug, Clone, Copy, PartialEq, Eq, Structural)]
pub enum KeyAction {
    Delete,
    RemoveDomain(Domain),
}

/// Parameters added to every request of a category before it is sent.
#[derive(Debug)]
pub struct BeforeHook {
    pub category: RequestCategory,
    pub parameters: Vec<(String, String)>,
}

/// The configuration of a pool, fixed once the pool is built.
#[derive(Debug)]
pub struct PoolOptions {
    /// Sent as the `comment` parameter of every request.
    pub comment: Option<String>,
    /// Actions per upstream error code; a later entry for a code overrides an
    /// earlier one.
    pub error_actions: Vec<(u16, ErrorAction)>,
    pub before_hooks: Vec<BeforeHook>,
}

/// How a request went.
#[derive(Debug)]
pub enum SendOutcome {
    /// A payload came back; the action is what the check of the response
    /// asked for, if anything.
    Response(Option<KeyAction>),
    /// The upstream service reported an error.
    Upstream { code: u16, message: String },
    /// The transport failed.
    Transport(String),
}

/// What the caller does next.
#[derive(Debug, PartialEq, Eq)]
pub enum PoolStep {
    /// Hand the payload to the caller.
    Deliver,
    /// Acquire a fresh key and send the request again.
    Retry,
    Fail(PoolError),
}

/// The action registered for `code`: the last entry for it.
pub open spec fn action_for(table: Seq<(u16, ErrorAction)>, code: u16) -> Option<ErrorAction>
    decreases table.len(),
{
    if table.len() == 0 {
        None
    } else if table.last().0 == code {
        Some(table.last().1)
    } else {
        action_for(table.drop_last(), code)
    }
}

/// Seconds from `now` that a cooldown action lasts.
pub open spec fn cooldown_seconds(a: ErrorAction, now: u64) -> Option<u64> {
    match a {
        ErrorAction::CooldownFor(d) => Some(d),
        ErrorAction::CooldownUntilNextMinute => Some((60 - now % 60) as u64),
        ErrorAction::CooldownUntilNextDay => Some((86400 - now % 86400) as u64),
        _ => None,
    }
}

/// The parameters that the hooks of a category add, hook by hook.
pub open spec fn hook_parameters(hooks: Seq<BeforeHook>, c: RequestCategory) -> Seq<
    (Seq<char>, Seq<char>),
>
    decreases hooks.len(),
{
    if hooks.len() == 0 {
        Seq::empty()
    } else {
        let prev = hook_parameters(hooks.drop_last(), c);
        if hooks.last().category == c {
            prev + parameters_view(hooks.last().parameters@)
        } else {
            prev
        }
    }
}

/// The parameters that the comment adds.
pub open spec fn comment_parameters(comment: Option<String>) -> Seq<(Seq<char>, Seq<char>)> {
    match comment {
        Some(c) => seq![("comment"@, c@)],
        None => Seq::empty(),
    }
}

/// The action registered for `code`.
fn lookup_action(table: &Vec<(u16, ErrorAction)>, code: u16) -> (r: Option<ErrorAction>)
    ensures
        r == action_for(table@, code),
{
    let mut found: Option<ErrorAction> = None;
    let mut i: usize = 0;
    while i < table.len()
        invariant
            i <= table@.len(),
            found == action_for(table@.subrange(0, i as int), code),
        decreases table.len() - i,
    {
        assert(table@.subrange(0, i + 1).drop_last() =~= table@.subrange(0, i as int));
        let (c, a) = table[i];
        if c == code {
            found = Some(a);
        }
        i = i + 1;
    }
    assert(table@.subrange(0, i as int) =~= table@);
    found
}

fn copy_string(s: &String) -> (r: String)
    ensures
        r@ == s@,
{
    s.clone()
}

/// A pool of keys with its options.
#[derive(Debug)]
pub struct KeyPool {
    pub storage: KeyTable,
    pub options: PoolOptions,
}

impl KeyPool {
    pub open spec fn wf(&self) -> bool {
        self.storage.wf()
    }

    /// The request as it is sent for `category`: the parameters of the
    /// category's hooks, then the comment, follow those it has.
    pub fn prepare_request(&self, category: RequestCategory, request: ApiRequest) -> (r: ApiRequest)
        ensures
            r.path@ == request.path@,
            parameters_view(r.parameters@) == parameters_view(request.parameters@) + hook_parameters(
                self.options.before_hooks@,
                category,
            ) + comment_parameters(self.options.comment),
    {
        let mut r = request;
        let hooks = &self.options.before_hooks;
        let mut i: usize = 0;
        while i < hooks.len()
            invariant
                i <= hooks@.len(),
                r.path@ == request.path@,
                parameters_view(r.parameters@) == parameters_view(request.parameters@)
                    + hook_parameters(hooks@.subrange(0, i as int), category),
            decreases hooks.len() - i,
        {
            assert(hooks@.subrange(0, i + 1).drop_last() =~= hooks@.subrange(0, i as int));
            let hook = &hooks[i];
            if hook.category == category {
                let mut j: usize = 0;
                let ghost base = parameters_view(r.parameters@);
                while j < hook.parameters.len()
                    invariant
                        j <= hook.parameters@.len(),
                        r.path@ == request.path@,
                        parameters_view(r.parameters@) == base + parameters_view(
                            hook.parameters@,
                        ).subrange(0, j as int),
                    decreases hook.parameters.len() - j,
                {
                    let (name, value) = &hook.parameters[j];
                    r.push_parameter(copy_string(name), copy_string(value));
                    assert(parameters_view(hook.parameters@).subrange(0, j + 1) =~= parameters_view(
                        hook.parameters@,
                    ).subrange(0, j as int).push((name@, value@)));
                    j = j + 1;
                }
                assert(parameters_view(hook.parameters@).subrange(0, j as int) =~= parameters_view(
                    hook.parameters@,
                ));
                assert(base + parameters_view(hook.parameters@) =~= parameters_view(
                    request.parameters@,
                ) + hook_parameters(hooks@.subrange(0, i + 1), category));
            }
            i = i + 1;
        }
        assert(hooks@.subrange(0, i as int) =~= hooks@);
        let ghost before = parameters_view(r.parameters@);
        match &self.options.comment {
            Some(c) => {
                r.push_parameter(String::from_str("comment"), copy_string(c));
                assert(parameters_view(r.parameters@) =~= before + comment_parameters(
                    self.options.comment,
                ));
            },
            None => {
                assert(before + comment_parameters(self.options.comment) =~= before);
            },
        }
        r
    }

    /// Applies the action registered for an upstream error code to the key
    /// with id `key_id`; `true` when the request is to be retried with
    /// another key.
    pub fn flag_key(&mut self, key_id: i32, code: u16, now: u64) -> (r: Result<bool, PoolError>)
        requires
            old(self).wf(),
        ensures
            final(self).wf(),
            final(self).options == old(self).options,
            final(self).storage.limit == old(self).storage.limit,
            ({
                let ks = old(self).storage.keys_view();
                let ks2 = final(self).storage.keys_view();
                let id = SelectorView::Id(key_id);
                match action_for(old(self).options.error_actions@, code) {
                    None => r == Ok::<bool, PoolError>(false) && ks2 == ks,
                    Some(ErrorAction::Surface) => r == Ok::<bool, PoolError>(false) && ks2 == ks,
                    Some(ErrorAction::Remove) => match first_selected(ks, id) {
                        None => r == Err::<bool, PoolError>(PoolError::KeyNotFound(KeySelector::Id(key_id)))
                            && ks2 == ks,
                        Some(_) => r == Ok::<bool, PoolError>(true) && ks2 == retained(ks, id),
                    },
                    Some(a) => r == Ok::<bool, PoolError>(true) && ks2 == timed_out(
                        ks,
                        id,
                        expiry(now, cooldown_seconds(a, now)->0),
                    ),
                }
            }),
    {
        match lookup_action(&self.options.error_actions, code) {
            None => Ok(false),
            Some(ErrorAction::Surface) => Ok(false),
            Some(ErrorAction::Remove) => match self.storage.remove_key(KeySelector::Id(key_id)) {
                Ok(_) => Ok(true),
                Err(e) => Err(e),
            },
            Some(ErrorAction::CooldownFor(d)) => {
                self.storage.timeout_key(&KeySelector::Id(key_id), d, now);
                Ok(true)
            },
            Some(ErrorAction::CooldownUntilNextMinute) => {
                self.storage.timeout_key(&KeySelector::Id(key_id), 60 - now % 60, now);
                Ok(true)
            },
            Some(ErrorAction::CooldownUntilNextDay) => {
                self.storage.timeout_key(&KeySelector::Id(key_id), 86400 - now % 86400, now);
                Ok(true)
            },
        }
    }

    /// The next step after a request sent with `key`, with the effect of the
    /// outcome on the key applied.
    pub fn handle_outcome(&mut self, key: &StoredKey, outcome: SendOutcome, now: u64) -> (r: PoolStep)
        requires
            old(self).wf(),
        ensures
            final(self).wf(),
            final(self).options == old(self).options,
            final(self).storage.limit == old(self).storage.limit,
            ({
                let ks = old(self).storage.keys_view();
                let ks2 = final(self).storage.keys_view();
                let id = SelectorView::Id(key.id);
                match outcome {
                    SendOutcome::Response(None) => r == PoolStep::Deliver && ks2 == ks,
                    SendOutcome::Response(Some(KeyAction::Delete)) => match first_selected(ks, id) {
                        None => r == PoolStep::Fail(PoolError::KeyNotFound(KeySelector::Id(key.id)))
                            && ks2 == ks,
                        Some(_) => r == PoolStep::Retry && ks2 == retained(ks, id),
                    },
                    SendOutcome::Response(Some(KeyAction::RemoveDomain(d))) => match first_selected(
                        ks,
                        id,
                    ) {
                        None => r == PoolStep::Fail(PoolError::KeyNotFound(KeySelector::Id(key.id)))
                            && ks2 == ks,
                        Some(_) => r == PoolStep::Retry && ks2 == edited_keys(
                            ks,
                            id,
                            DomainEdit::Remove(d),
                        ),
                    },
                    SendOutcome::Upstream { code, message } => match action_for(
                        old(self).options.error_actions@,
                        code,
                    ) {
                        None => (r matches PoolStep::Fail(PoolError::Api(e)) && e.spec_code() == code
                            && (e is Other <==> code > LAST_KNOWN_CODE) && (e matches ApiError::Other {
                            message: m,
                            ..
                        } ==> m@ == message@)) && ks2 == ks,
                        Some(ErrorAction::Surface) => (r matches PoolStep::Fail(PoolError::Api(e))
                            && e.spec_code() == code && (e is Other <==> code > LAST_KNOWN_CODE) && (
                        e matches ApiError::Other { message: m, .. } ==> m@ == message@)) && ks2
                            == ks,
                        Some(ErrorAction::Remove) => match first_selected(ks, id) {
                            None => r == PoolStep::Fail(
                                PoolError::KeyNotFound(KeySelector::Id(key.id)),
                            ) && ks2 == ks,
                            Some(_) => r == PoolStep::Retry && ks2 == retained(ks, id),
                        },
                        Some(a) => r == PoolStep::Retry && ks2 == timed_out(
                            ks,
                            id,
                            expiry(now, cooldown_seconds(a, now)->0),
                        ),
                    },
                    SendOutcome::Transport(m) => r == PoolStep::Fail(PoolError::Transport(m)) && ks2
                        == ks,
                }
            }),
    {
        match outcome {
            SendOutcome::Response(None) => PoolStep::Deliver,
            SendOutcome::Response(Some(KeyAction::Delete)) => {
                match self.storage.remove_key(KeySelector::Id(key.id)) {
                    Ok(_) => PoolStep::Retry,
                    Err(e) => PoolStep::Fail(e),
                }
            },
            SendOutcome::Response(Some(KeyAction::RemoveDomain(d))) => {
                match self.storage.remove_domain_from_key(KeySelector::Id(key.id), d) {
                    Ok(_) => PoolStep::Retry,
                    Err(e) => PoolStep::Fail(e),
                }
            },
            SendOutcome::Upstream { code, message } => match self.flag_key(key.id, code, now) {
                Ok(true) => PoolStep::Retry,
                Ok(false) => PoolStep::Fail(PoolError::Api(ApiError::new(code, message.as_str()))),
                Err(e) => PoolStep::Fail(e),
            },
            SendOutcome::Transport(m) => PoolStep::Fail(PoolError::Transport(m)),
        }
    }
}

/// The actions that a new pool takes on upstream errors unless told otherwise:
/// an incorrect key or a jailed owner removes the key; too many requests
/// withholds it until the next minute; an inactive or paused owner withholds
/// it until the next day.
pub open spec fn default_actions() -> Seq<(u16, ErrorAction)> {
    seq![
        (2u16, ErrorAction::Remove),
        (5u16, ErrorAction::CooldownUntilNextMinute),
        (10u16, ErrorAction::Remove),
        (13u16, ErrorAction::CooldownUntilNextDay),
        (18u16, ErrorAction::CooldownUntilNextDay),
    ]
}

/// Builds a pool from its storage and options.
#[derive(Debug)]
pub struct PoolBuilder {
    pub storage: KeyTable,
    pub options: PoolOptions,
}

impl PoolBuilder {
    /// A builder with no comment, no error actions and no hooks.
    pub fn new(storage: KeyTable) -> (r: PoolBuilder)
        ensures
            r.storage == storage,
            r.options.comment is None,
            r.options.error_actions@.len() == 0,
            r.options.before_hooks@.len() == 0,
    {
        PoolBuilder {
            storage,
            options: PoolOptions { comment: None, error_actions: Vec::new(), before_hooks: Vec::new() },
        }
    }

    /// Sets the comment sent with every request.
    pub fn comment(self, c: String) -> (r: PoolBuilder)
        ensures
            r.storage == self.storage,
            r.options.comment == Some(c),
            r.options.error_actions == self.options.error_actions,
            r.options.before_hooks == self.options.before_hooks,
    {
        let mut b = self;
        b.options.comment = Some(c);
        b
    }

    /// Registers the action for an upstream error code, overriding any
    /// earlier one for that code.
    pub fn error_hook(self, code: u16, action: ErrorAction) -> (r: PoolBuilder)
        ensures
            r.storage == self.storage,
            r.options.comment == self.options.comment,
            r.options.error_actions@ == self.options.error_actions@.push((code, action)),
            r.options.before_hooks == self.options.before_hooks,
    {
        let mut b = self;
        b.options.error_actions.push((code, action));
        b
    }

    /// Registers the default actions.
    pub fn use_default_hooks(self) -> (r: PoolBuilder)
        ensures
            r.storage == self.storage,
            r.options.comment == self.options.comment,
            r.options.error_actions@ == self.options.error_actions@ + default_actions(),
            r.options.before_hooks == self.options.before_hooks,
    {
        let b = self.error_hook(2, ErrorAction::Remove).error_hook(
            5,
            ErrorAction::CooldownUntilNextMinute,
        ).error_hook(10, ErrorAction::Remove).error_hook(13, ErrorAction::CooldownUntilNextDay).error_hook(
            18,
            ErrorAction::CooldownUntilNextDay,
        );
        assert(b.options.error_actions@ =~= self.options.error_actions@ + default_actions());
        b
    }

    /// Adds parameters to every request of a category.
    pub fn hook_before(self, category: RequestCategory, parameters: Vec<(String, String)>) -> (r:
        PoolBuilder)
        ensures
            r.storage == self.storage,
            r.options.comment == self.options.comment,
            r.options.error_actions == self.options.error_actions,
            r.options.before_hooks@ == self.options.before_hooks@.push(
                BeforeHook { category, parameters },
            ),
    {
        let mut b = self;
        b.options.before_hooks.push(BeforeHook { category, parameters });
        b
    }

    pub fn build(self) -> (r: KeyPool)
        ensures
            r.storage == self.storage,
            r.options == self.options,
    {
        KeyPool { storage: self.storage, options: self.options }
    }
}

/// Pairs `n` requests, in order, with the keys of a bulk acquisition; each
/// request beyond the keys is reported unavailable rather than dropped.
pub fn assign_keys(n: usize, keys: Vec<StoredKey>, selector: &KeySelector) -> (r: Vec<
    Result<StoredKey, PoolError>,
>)
    ensures
        r@.len() == n,
        forall|i: int|
            0 <= i < n ==> if i < keys@.len() {
                (#[trigger] r@[i]) matches Ok(k) && k@ == keys@[i]@
            } else {
                r@[i] matches Err(PoolError::Unavailable(s)) && s@ == selector@
            },
{
    let mut r: Vec<Result<StoredKey, PoolError>> = Vec::new();
    let mut i: usize = 0;
    while i < n
        invariant
            i <= n,
            r@.len() == i,
            forall|j: int|
                0 <= j < i ==> if j < keys@.len() {
                    (#[trigger] r@[j]) matches Ok(k) && k@ == keys@[j]@
                } else {
                    r@[j] matches Err(PoolError::Unavailable(s)) && s@ == selector@
                },
        decreases n - i,
    {
        if i < keys.len() {
            r.push(Ok(keys[i].duplicate()));
        } else {
            r.push(Err(PoolError::Unavailable(selector.duplicate())));
        }
        i = i + 1;
    }
    r
}

/// When each of `n` requests of a throttled batch may be dispatched, in
/// milliseconds after the first: one every `spacing_ms`.
pub fn dispatch_schedule(n: usize, spacing_ms: u64) -> (r: Vec<u64>)
    requires
        n * spacing_ms <= u64::MAX,
    ensures
        r@.len() == n,
        forall|i: int| 0 <= i < n ==> #[trigger] r@[i] == i * spacing_ms,
{
    let mut r: Vec<u64> = Vec::new();
    let mut i: usize = 0;
    let mut at: u64 = 0;
    while i < n
        invariant
            i <= n,
            n * spacing_ms <= u64::MAX,
            r@.len() == i,
            i < n ==> at == i * spacing_ms,
            forall|j: int| 0 <= j < i ==> #[trigger] r@[j] == j * spacing_ms,
        decreases n - i,
    {
        r.push(at);
        if i + 1 < n {
            assert((i + 1) * spacing_ms <= n * spacing_ms && (i + 1) * spacing_ms == i * spacing_ms
                + spacing_ms) by (nonlinear_arith)
                requires
                    i + 1 < n,
            ;
            at = at + spacing_ms;
        }
        i = i + 1;
    }
    r
}

} // verus!
