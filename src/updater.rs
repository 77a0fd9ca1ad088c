use vstd::prelude::*;
use vstd::string::*;
use crate::module::{
    Module, ModuleView, RequestFile, StartPlan, command_line, inbox_of, outbox_of, sent,
    start_plan, started, queued, valid_module_name,
};
use crate::group::{distinct_modules, for_module, group_by_module, lemma_distinct_nonempty, lemma_distinct_unique};
use crate::types::{
    Change, Config, Discovery, JsonValue, ModuleRequest, ModuleResponse, Observation, RequestView,
    Resource, db_string, opt_view, requests_view, value_to_db_string,
};

verus! {

/// A discovery as the engine keeps it: (resource, target module, source).
pub type DiscoveryView = (Seq<char>, Seq<char>, Seq<char>);

pub open spec fn discovery_view(d: Discovery) -> DiscoveryView {
    (d.resource@, d.module@, d.source@)
}

pub struct UpdaterView {
    pub cache: Seq<Seq<char>>,
    pub modules: Seq<ModuleView>,
    pub backlog: Seq<DiscoveryView>,
}

/// What the store is asked to do with a response.
pub enum StoreAction {
    UpsertObservation(Observation),
    UpsertResource(Resource, String),
    ClassifyChange(Change),
    /// A discovery for another module, kept for the discovery backlog.
    Deferred,
    /// An unknown operation.
    Ignored,
}

/// The per-tick orchestration state: module handles by name, the keys of the
/// resources already fanned out, and the deferred discoveries.
pub struct Updater {
    cache: Vec<String>,
    modules: Vec<Module>,
    discovery_backlog: Vec<Discovery>,
}

pub open spec fn has_module(mods: Seq<ModuleView>, name: Seq<char>) -> bool {
    exists|i: int| 0 <= i < mods.len() && (#[trigger] mods[i]).name == name
}

pub open spec fn config_has(config: Config, name: Seq<char>) -> bool {
    exists|j: int| 0 <= j < config.modules@.len() && (#[trigger] config.modules@[j]).0@ == name
}

/// Every module name in the configuration is a legal one.
pub open spec fn config_valid(config: Config) -> bool {
    forall|j: int| 0 <= j < config.modules@.len() ==> valid_module_name(
        (#[trigger] config.modules@[j]).0@,
    )
}

/// A handle as `Module::new` makes it.
pub open spec fn fresh_module(name: Seq<char>, command: Seq<char>, slow: bool) -> ModuleView {
    ModuleView {
        name,
        slow,
        command: command_line(command, name),
        inbox: inbox_of(name),
        outbox: outbox_of(name),
        running: false,
        backlog: Seq::empty(),
    }
}

/// The module list after `get_or_create_module(name)`: unchanged if a handle
/// exists or the configuration lacks the name, else a fresh handle appended
/// for the first configuration entry of that name.
pub open spec fn created(mods: Seq<ModuleView>, config: Config, name: Seq<char>, after: Seq<ModuleView>) -> bool {
    if has_module(mods, name) || !config_has(config, name) {
        after == mods
    } else {
        exists|j: int|
            0 <= j < config.modules@.len() && (#[trigger] config.modules@[j]).0@ == name
                && after == mods.push(
                fresh_module(name, config.modules@[j].1.command@, config.modules@[j].1.slow),
            )
    }
}

/// The outcome of `send_to_module(name, rs)`: nothing when no handle exists
/// and the configuration lacks the name; otherwise the handle (created if
/// needed) has been sent `rs`, and the plan is the one its `send_requests` gave.
pub open spec fn sent_to(
    before: UpdaterView,
    config: Config,
    name: Seq<char>,
    rs: Seq<RequestView>,
    after: UpdaterView,
    r: Option<StartPlan>,
) -> bool {
    &&& after.cache == before.cache
    &&& after.backlog == before.backlog
    &&& (r is Some <==> (has_module(before.modules, name) || config_has(config, name)))
    &&& r is None ==> after == before
    &&& r matches Some(p) ==> exists|mods: Seq<ModuleView>, i: int|
        created(before.modules, config, name, mods) && 0 <= i < mods.len()
            && (#[trigger] mods[i]).name == name
            && after.modules == mods.update(i, sent(mods[i], rs))
            && start_plan(queued(mods[i], rs), p)
}

/// The two requests that fan a stored resource out to its module.
pub open spec fn fan_out_requests(resource: Resource, ts: int) -> Seq<RequestView> {
    seq![
        RequestView::discovery(
            resource.resource@,
            resource.module@,
            opt_or_empty(opt_view(resource.source)),
            ts,
        ),
        RequestView::observation(resource.resource@, resource.module@, ts),
    ]
}

/// The outcome of `initiate_requests(resource)`: nothing when the resource's
/// key is cached; otherwise the key is cached and the fan-out requests are
/// sent to the resource's module as by `send_to_module`.
pub open spec fn initiated(
    before: UpdaterView,
    config: Config,
    resource: Resource,
    ts: int,
    after: UpdaterView,
    r: Option<StartPlan>,
) -> bool {
    let key = cache_key(resource.module@, resource.resource@);
    if before.cache.contains(key) {
        r is None && after == before
    } else {
        sent_to(
            UpdaterView { cache: before.cache.push(key), ..before },
            config,
            resource.module@,
            fan_out_requests(resource, ts),
            after,
            r,
        )
    }
}

/// `initiate_requests` run on each resource in turn: `states[k]` is the
/// state before resource `k`, and plan `k` is what that call returned.
pub open spec fn fan_out_steps(
    before: UpdaterView,
    config: Config,
    resources: Seq<Resource>,
    ts: int,
    states: Seq<UpdaterView>,
    plans: Seq<Option<StartPlan>>,
) -> bool {
    &&& states.len() == resources.len() + 1
    &&& plans.len() == resources.len()
    &&& states[0] == before
    &&& forall|k: int| 0 <= k < resources.len() ==> initiated(
        #[trigger] states[k],
        config,
        resources[k],
        ts,
        states[k + 1],
        plans[k],
    )
}

/// The key under which a resource is fanned out once per tick.
pub open spec fn cache_key(module: Seq<char>, resource: Seq<char>) -> Seq<char> {
    module + " - "@ + resource
}

pub open spec fn opt_or_empty(o: Option<Seq<char>>) -> Seq<char> {
    match o {
        Some(s) => s,
        None => Seq::empty(),
    }
}

pub open spec fn opt_db(o: Option<JsonValue>) -> Seq<char> {
    match o {
        Some(v) => db_string(v),
        None => Seq::empty(),
    }
}

fn string_or_empty(o: &Option<String>) -> (r: String)
    ensures
        r@ == opt_or_empty(opt_view(*o)),
{
    match o {
        Some(s) => s.clone(),
        None => String::new(),
    }
}

fn db_or_empty(o: &Option<JsonValue>) -> (r: String)
    ensures
        r@ == opt_db(*o),
{
    match o {
        Some(v) => value_to_db_string(v),
        None => String::new(),
    }
}

impl View for Updater {
    type V = UpdaterView;

    closed spec fn view(&self) -> UpdaterView {
        UpdaterView {
            cache: self.cache@.map_values(|k: String| k@),
            modules: self.modules@.map_values(|m: Module| m@),
            backlog: self.discovery_backlog@.map_values(|d: Discovery| discovery_view(d)),
        }
    }
}

impl Updater {
    /// Each handle's folders belong to its name, and names are distinct.
    pub open spec fn wf(self) -> bool {
        &&& forall|i: int| 0 <= i < self@.modules.len() ==> {
            &&& (#[trigger] self@.modules[i]).inbox == inbox_of(self@.modules[i].name)
            &&& self@.modules[i].outbox == outbox_of(self@.modules[i].name)
        }
        &&& forall|i: int, k: int|
            0 <= i < k < self@.modules.len() ==> (#[trigger] self@.modules[i]).name
                != (#[trigger] self@.modules[k]).name
    }

    pub fn new() -> (r: Self)
        ensures
            r.wf(),
            r@.cache.len() == 0,
            r@.modules.len() == 0,
            r@.backlog.len() == 0,
    {
        let r = Updater { cache: Vec::new(), modules: Vec::new(), discovery_backlog: Vec::new() };
        assert(r@.modules =~= Seq::<ModuleView>::empty());
        r
    }

    /// Index of the handle named `name`.
    pub fn find_module(&self, name: &str) -> (r: Option<usize>)
        ensures
            r matches Some(i) ==> i < self@.modules.len() && self@.modules[i as int].name == name@,
            r is None ==> !has_module(self@.modules, name@),
    {
        let mut i: usize = 0;
        while i < self.modules.len()
            invariant
                i <= self.modules@.len(),
                forall|k: int| 0 <= k < i ==> (#[trigger] self@.modules[k]).name != name@,
            decreases self.modules.len() - i,
        {
            if self.modules[i].name_matches(name) {
                return Some(i);
            }
            i = i + 1;
        }
        None
    }

    /// The handle named `name`, if any.
    pub fn module(&self, name: &str) -> (r: Option<&Module>)
        ensures
            r matches Some(m) ==> m@.name == name@ && self@.modules.contains(m@),
            r is None ==> !has_module(self@.modules, name@),
    {
        match self.find_module(name) {
            Some(i) => {
                assert(self@.modules[i as int] == self.modules@[i as int]@);
                Some(&self.modules[i])
            },
            None => None,
        }
    }

    /// Names of all handles, in creation order.
    pub fn module_names(&self) -> (r: Vec<String>)
        ensures
            r@.len() == self@.modules.len(),
            forall|k: int| 0 <= k < r@.len() ==> (#[trigger] r@[k])@ == self@.modules[k].name,
    {
        let mut out: Vec<String> = Vec::new();
        let mut i: usize = 0;
        while i < self.modules.len()
            invariant
                i <= self.modules@.len(),
                out@.len() == i,
                forall|k: int| 0 <= k < i ==> (#[trigger] out@[k])@ == self@.modules[k].name,
            decreases self.modules.len() - i,
        {
            out.push(self.modules[i].name_string());
            i = i + 1;
        }
        out
    }
}

impl Updater {
    fn send_at(&mut self, i: usize, requests: Vec<ModuleRequest>) -> (plan: StartPlan)
        requires
            i < old(self)@.modules.len(),
        ensures
            final(self)@ == (UpdaterView {
                modules: old(self)@.modules.update(
                    i as int,
                    sent(old(self)@.modules[i as int], requests_view(requests@)),
                ),
                ..old(self)@
            }),
            start_plan(queued(old(self)@.modules[i as int], requests_view(requests@)), plan),
    {
        let mut m = self.modules.remove(i);
        let plan = m.send_requests(requests);
        self.modules.insert(i, m);
        assert(self@.modules =~= old(self)@.modules.update(i as int, m@));
        plan
    }

    fn start_at(&mut self, i: usize) -> (plan: StartPlan)
        requires
            i < old(self)@.modules.len(),
        ensures
            final(self)@ == (UpdaterView {
                modules: old(self)@.modules.update(i as int, started(old(self)@.modules[i as int])),
                ..old(self)@
            }),
            start_plan(old(self)@.modules[i as int], plan),
    {
        let mut m = self.modules.remove(i);
        let plan = m.start();
        self.modules.insert(i, m);
        assert(self@.modules =~= old(self)@.modules.update(i as int, m@));
        plan
    }

    /// Starts the handle named `name`; `None` when there is none.
    pub fn start_module(&mut self, name: &str) -> (r: Option<StartPlan>)
        requires
            old(self).wf(),
        ensures
            final(self).wf(),
            !has_module(old(self)@.modules, name@) ==> r is None && final(self)@ == old(self)@,
            has_module(old(self)@.modules, name@) ==> exists|i: int|
                0 <= i < old(self)@.modules.len() && (#[trigger] old(self)@.modules[i]).name == name@
                    && final(self)@ == (UpdaterView {
                    modules: old(self)@.modules.update(i, started(old(self)@.modules[i])),
                    ..old(self)@
                }) && (r matches Some(p) && start_plan(old(self)@.modules[i], p)),
    {
        match self.find_module(name) {
            Some(i) => {
                let p = self.start_at(i);
                assert(final(self)@.modules[i as int] == started(old(self)@.modules[i as int]));
                Some(p)
            },
            None => None,
        }
    }

    /// Records that the child of the handle named `name` has finished or
    /// could not be spawned.
    pub fn module_exited(&mut self, name: &str)
        requires
            old(self).wf(),
        ensures
            final(self).wf(),
            final(self)@.cache == old(self)@.cache,
            final(self)@.backlog == old(self)@.backlog,
            final(self)@.modules.len() == old(self)@.modules.len(),
            forall|i: int| 0 <= i < old(self)@.modules.len() ==> #[trigger] final(self)@.modules[i] == if old(self)@.modules[i].name == name@ {
                ModuleView { running: false, ..old(self)@.modules[i] }
            } else {
                old(self)@.modules[i]
            },
    {
        match self.find_module(name) {
            Some(i) => {
                let mut m = self.modules.remove(i);
                m.process_exited();
                self.modules.insert(i, m);
                assert(self@.modules =~= old(self)@.modules.update(i as int, m@));
            },
            None => {},
        }
    }

    /// Ensures a handle named `name` exists, creating it from the
    /// configuration; `false` when neither has it.
    pub fn get_or_create_module(&mut self, name: &str, config: &Config) -> (r: bool)
        requires
            old(self).wf(),
            config_valid(*config),
        ensures
            final(self).wf(),
            r == (has_module(old(self)@.modules, name@) || config_has(*config, name@)),
            r == has_module(final(self)@.modules, name@),
            created(old(self)@.modules, *config, name@, final(self)@.modules),
            final(self)@.cache == old(self)@.cache,
            final(self)@.backlog == old(self)@.backlog,
    {
        if self.find_module(name).is_some() {
            return true;
        }
        match find_config(config, name) {
            Some(j) => {
                let mc = &config.modules[j];
                assert(valid_module_name(config.modules@[j as int].0@));
                let m = Module::new(name, mc.1.command.as_str(), mc.1.slow);
                assert(m@.backlog =~= Seq::<RequestView>::empty());
                self.modules.push(m);
                proof {
                    assert(self@.modules =~= old(self)@.modules.push(m@));
                    assert(self@.modules[old(self)@.modules.len() as int].name == name@);
                    assert(m@ == fresh_module(
                        name@,
                        config.modules@[j as int].1.command@,
                        config.modules@[j as int].1.slow,
                    ));
                    assert(config.modules@[j as int].0@ == name@);
                }
                true
            },
            None => false,
        }
    }

    /// Sends `requests` to the handle named `name`, creating it from the
    /// configuration if needed; `None`, with nothing sent, when neither has it.
    pub fn send_to_module(&mut self, name: &str, requests: Vec<ModuleRequest>, config: &Config) -> (r: Option<StartPlan>)
        requires
            old(self).wf(),
            config_valid(*config),
        ensures
            final(self).wf(),
            final(self)@.cache == old(self)@.cache,
            final(self)@.backlog == old(self)@.backlog,
            sent_to(old(self)@, *config, name@, requests_view(requests@), final(self)@, r),
    {
        if !self.get_or_create_module(name, config) {
            return None;
        }
        let ghost mods = self@.modules;
        let ghost rs = requests_view(requests@);
        match self.find_module(name) {
            Some(i) => {
                let p = self.send_at(i, requests);
                assert(self.wf());
                assert(final(self)@.modules == mods.update(i as int, sent(mods[i as int], rs)));
                Some(p)
            },
            None => None,
        }
    }

    /// Routes a discovery: accepted as a resource upsert when the responding
    /// module is the discovery's own, otherwise kept for the discovery backlog.
    pub fn process_discovery(&mut self, responding_module: &str, discovery: Discovery) -> (r: Option<(Resource, String)>)
        ensures
            discovery.module@ == responding_module@ ==> {
                &&& final(self)@ == old(self)@
                &&& (r matches Some((res, src)) && {
                    &&& res.resource@ == discovery.resource@
                    &&& res.module@ == discovery.module@
                    &&& opt_view(res.source) == Some(discovery.source@)
                    &&& src@ == discovery.source@
                })
            },
            discovery.module@ != responding_module@ ==> r is None && final(self)@ == (UpdaterView {
                backlog: old(self)@.backlog.push(discovery_view(discovery)),
                ..old(self)@
            }),
    {
        if discovery.module != String::from_str(responding_module) {
            let ghost d = discovery_view(discovery);
            self.discovery_backlog.push(discovery);
            assert(self@.backlog =~= old(self)@.backlog.push(d));
            return None;
        }
        let resource = Resource::from_discovery(&discovery);
        Some((resource, discovery.source))
    }

    /// Classifies a response from `module_name` into what the store must do.
    pub fn process_response(&mut self, module_name: &str, resp: ModuleResponse) -> (r: StoreAction)
        ensures
            resp.operation@ == "observation"@ ==> {
                &&& final(self)@ == old(self)@
                &&& (r matches StoreAction::UpsertObservation(o) && {
                &&& o.resource@ == resp.resource@
                &&& o.module@ == resp.module@
                &&& o.attribute@ == opt_or_empty(opt_view(resp.attribute))
                &&& o.value@ == opt_db(resp.value)
                &&& o.timestamp == resp.timestamp
                &&& o.severity@ == opt_or_empty(opt_view(resp.severity))
                })
            },
            resp.operation@ == "discovery"@ && resp.module@ == module_name@ ==> {
                &&& final(self)@ == old(self)@
                &&& (r matches StoreAction::UpsertResource(res, src) && {
                &&& res.resource@ == resp.resource@
                &&& res.module@ == resp.module@
                &&& opt_view(res.source) == Some(opt_or_empty(opt_view(resp.source)))
                &&& src@ == opt_or_empty(opt_view(resp.source))
                })
            },
            resp.operation@ == "discovery"@ && resp.module@ != module_name@ ==> r is Deferred && final(self)@ == (UpdaterView {
                backlog: old(self)@.backlog.push(
                    (resp.resource@, resp.module@, opt_or_empty(opt_view(resp.source))),
                ),
                ..old(self)@
            }),
            resp.operation@ == "change"@ ==> {
                &&& final(self)@ == old(self)@
                &&& (r matches StoreAction::ClassifyChange(c) && {
                &&& c.resource@ == resp.resource@
                &&& c.module@ == resp.module@
                &&& c.attribute@ == opt_or_empty(opt_view(resp.attribute))
                &&& c.old_value@ == opt_db(resp.old_value)
                &&& c.new_value@ == opt_db(resp.new_value)
                &&& c.severity@ == opt_or_empty(opt_view(resp.severity))
                &&& c.timestamp == resp.timestamp
                })
            },
            resp.operation@ != "observation"@ && resp.operation@ != "discovery"@ && resp.operation@ != "change"@ ==> r is Ignored && final(self)@ == old(self)@,
    {
        proof {
            reveal_strlit("observation");
            reveal_strlit("discovery");
            reveal_strlit("change");
            assert("observation"@.len() == 11 && "discovery"@.len() == 9 && "change"@.len() == 6);
        }
        if resp.operation == String::from_str("observation") {
            let obs = Observation {
                resource: resp.resource,
                module: resp.module,
                attribute: string_or_empty(&resp.attribute),
                value: db_or_empty(&resp.value),
                timestamp: resp.timestamp,
                severity: string_or_empty(&resp.severity),
            };
            StoreAction::UpsertObservation(obs)
        } else if resp.operation == String::from_str("discovery") {
            let discovery = Discovery {
                resource: resp.resource,
                module: resp.module,
                source: string_or_empty(&resp.source),
            };
            match self.process_discovery(module_name, discovery) {
                Some((res, src)) => StoreAction::UpsertResource(res, src),
                None => StoreAction::Deferred,
            }
        } else if resp.operation == String::from_str("change") {
            let change = Change {
                resource: resp.resource,
                module: resp.module,
                attribute: string_or_empty(&resp.attribute),
                old_value: db_or_empty(&resp.old_value),
                new_value: db_or_empty(&resp.new_value),
                severity: string_or_empty(&resp.severity),
                timestamp: resp.timestamp,
            };
            StoreAction::ClassifyChange(change)
        } else {
            StoreAction::Ignored
        }
    }
}

proof fn lemma_created_has(before: Seq<ModuleView>, config: Config, name: Seq<char>, after: Seq<ModuleView>, n: Seq<char>)
    requires
        created(before, config, name, after),
    ensures
        has_module(after, n) == (has_module(before, n) || (n == name && config_has(config, name))),
{
    if !(has_module(before, name) || !config_has(config, name)) {
        let j = choose|j: int|
            0 <= j < config.modules@.len() && (#[trigger] config.modules@[j]).0@ == name
                && after == before.push(
                fresh_module(name, config.modules@[j].1.command@, config.modules@[j].1.slow),
            );
        if has_module(after, n) {
            let k = choose|k: int| 0 <= k < after.len() && (#[trigger] after[k]).name == n;
            if k < before.len() {
                assert(before[k] == after[k]);
            }
        }
        if has_module(before, n) {
            let k = choose|k: int| 0 <= k < before.len() && (#[trigger] before[k]).name == n;
            assert(after[k] == before[k]);
        }
        if n == name {
            assert(after[before.len() as int].name == name);
        }
    } else {
        if n == name && config_has(config, name) {
            assert(has_module(before, name));
        }
    }
}

proof fn lemma_created_prefix(before: Seq<ModuleView>, config: Config, name: Seq<char>, after: Seq<ModuleView>)
    requires
        created(before, config, name, after),
    ensures
        after.len() >= before.len(),
        forall|i: int| 0 <= i < before.len() ==> #[trigger] after[i] == before[i],
{
    if !(has_module(before, name) || !config_has(config, name)) {
        let j = choose|j: int|
            0 <= j < config.modules@.len() && (#[trigger] config.modules@[j]).0@ == name
                && after == before.push(
                fresh_module(name, config.modules@[j].1.command@, config.modules@[j].1.slow),
            );
        assert forall|i: int| 0 <= i < before.len() implies #[trigger] after[i] == before[i] by {}
    }
}

proof fn lemma_sent_to_has(
    before: UpdaterView,
    config: Config,
    name: Seq<char>,
    rs: Seq<RequestView>,
    after: UpdaterView,
    r: Option<StartPlan>,
    n: Seq<char>,
)
    requires
        sent_to(before, config, name, rs, after, r),
    ensures
        has_module(after.modules, n) == (has_module(before.modules, n) || (n == name && config_has(config, name))),
{
    if r is Some {
        let p = r->Some_0;
        let (mods, i) = choose|mods: Seq<ModuleView>, i: int|
            created(before.modules, config, name, mods) && 0 <= i < mods.len()
                && (#[trigger] mods[i]).name == name
                && after.modules == mods.update(i, sent(mods[i], rs))
                && start_plan(queued(mods[i], rs), p);
        if has_module(mods, n) {
            let k = choose|k: int| 0 <= k < mods.len() && (#[trigger] mods[k]).name == n;
            assert(after.modules[k].name == n);
        }
        if has_module(after.modules, n) {
            let k = choose|k: int| 0 <= k < after.modules.len() && (#[trigger] after.modules[k]).name == n;
            assert(mods[k].name == n);
        }
        lemma_created_has(before.modules, config, name, mods, n);
    }
}

/// The discovery requests that the backlog becomes, stamped `ts`.
pub open spec fn backlog_requests(backlog: Seq<DiscoveryView>, ts: int) -> Seq<RequestView> {
    backlog.map_values(|d: DiscoveryView| RequestView::discovery(d.0, d.1, d.2, ts))
}

/// The change requests for a list of changes.
pub open spec fn change_requests(changes: Seq<Change>) -> Seq<RequestView> {
    changes.map_values(
        |c: Change|
            RequestView::change(
                c.resource@,
                c.module@,
                c.attribute@,
                c.old_value@,
                c.new_value@,
                c.timestamp as int,
            ),
    )
}

/// `m` is the handle that a batch for `name` goes to: the existing handle of
/// that name, or, when there is none, a fresh one from a configuration entry
/// of that name.
pub open spec fn handle_for(mods: Seq<ModuleView>, config: Config, name: Seq<char>, m: ModuleView) -> bool {
    ||| m.name == name && exists|i: int| 0 <= i < mods.len() && mods[i] == m
    ||| !has_module(mods, name) && exists|j: int|
        0 <= j < config.modules@.len() && (#[trigger] config.modules@[j]).0@ == name && m
            == fresh_module(name, config.modules@[j].1.command@, config.modules@[j].1.slow)
}

/// A dispatched batch: the plan is the one `send_requests` gives on the
/// batch's handle, and that handle ends up sent the batch.
pub open spec fn dispatched(
    before: Seq<ModuleView>,
    config: Config,
    name: Seq<char>,
    batch: Seq<RequestView>,
    plan: Option<StartPlan>,
    after: Seq<ModuleView>,
) -> bool {
    match plan {
        Some(p) => exists|m: ModuleView|
            handle_for(before, config, name, m) && start_plan(queued(m, batch), p) && after.contains(
                #[trigger] sent(m, batch),
            ),
        None => true,
    }
}

/// The names among `gs` that have a handle or a configuration entry.
pub open spec fn known_only(gs: Seq<Seq<char>>, mods: Seq<ModuleView>, config: Config) -> Seq<Seq<char>>
    decreases gs.len(),
{
    if gs.len() == 0 {
        Seq::empty()
    } else {
        let p = known_only(gs.drop_last(), mods, config);
        if has_module(mods, gs.last()) || config_has(config, gs.last()) {
            p.push(gs.last())
        } else {
            p
        }
    }
}

impl Updater {
    /// Sends each unclassified change to its module as a `change` request,
    /// one batch per module. Entry `k` of the result belongs to the `k`-th
    /// module in order of first appearance: `None` when that module is
    /// unknown.
    pub fn process_changes(&mut self, config: &Config, changes: &Vec<Change>) -> (r: Vec<(String, Option<StartPlan>)>)
        requires
            old(self).wf(),
            config_valid(*config),
        ensures
            final(self).wf(),
            final(self)@.cache == old(self)@.cache,
            final(self)@.backlog == old(self)@.backlog,
            r@.len() == distinct_modules(change_requests(changes@)).len(),
            forall|k: int| 0 <= k < r@.len() ==> (#[trigger] r@[k]).0@ == distinct_modules(change_requests(changes@))[k],
            forall|k: int| 0 <= k < r@.len() ==> ((#[trigger] r@[k]).1 is Some <==> (has_module(
                old(self)@.modules,
                distinct_modules(change_requests(changes@))[k],
            ) || config_has(*config, distinct_modules(change_requests(changes@))[k]))),
            forall|n: Seq<char>| #[trigger] has_module(final(self)@.modules, n) == (has_module(old(self)@.modules, n) || (
                config_has(*config, n) && distinct_modules(change_requests(changes@)).contains(n))),
            forall|k: int| 0 <= k < r@.len() ==> dispatched(
                old(self)@.modules,
                *config,
                (#[trigger] r@[k]).0@,
                for_module(change_requests(changes@), r@[k].0@),
                r@[k].1,
                final(self)@.modules,
            ),
            final(self)@.modules.len() >= old(self)@.modules.len(),
            forall|i: int| 0 <= i < old(self)@.modules.len() && !distinct_modules(change_requests(changes@)).contains(
                old(self)@.modules[i].name,
            ) ==> #[trigger] final(self)@.modules[i] == old(self)@.modules[i],
            forall|i: int| old(self)@.modules.len() <= i < final(self)@.modules.len() ==> distinct_modules(
                change_requests(changes@),
            ).contains((#[trigger] final(self)@.modules[i]).name),
    {
        let mut requests: Vec<ModuleRequest> = Vec::new();
        let mut i: usize = 0;
        while i < changes.len()
            invariant
                i <= changes@.len(),
                requests_view(requests@) == change_requests(changes@).take(i as int),
            decreases changes.len() - i,
        {
            let ghost prev = requests@;
            let rq = changes[i].to_request();
            let ghost rv = rq@;
            requests.push(rq);
            assert(requests_view(requests@) =~= requests_view(prev).push(rv));
            assert(requests_view(requests@) =~= change_requests(changes@).take(i as int + 1));
            i = i + 1;
        }
        assert(change_requests(changes@).take(changes@.len() as int) =~= change_requests(changes@));
        let groups = group_by_module(&requests);
        let ghost rs = change_requests(changes@);
        let ghost gs = distinct_modules(change_requests(changes@));
        proof {
            lemma_distinct_unique(change_requests(changes@));
        }
        let mut out: Vec<(String, Option<StartPlan>)> = Vec::new();
        let mut k: usize = 0;
        while k < groups.len()
            invariant
                k <= groups@.len(),
                groups@.len() == gs.len(),
                gs.no_duplicates(),
                forall|j: int| 0 <= j < groups@.len() ==> (#[trigger] groups@[j]).0@ == gs[j],
                self.wf(),
                config_valid(*config),
                self@.cache == old(self)@.cache,
                self@.backlog == old(self)@.backlog,
                out@.len() == k,
                forall|j: int| 0 <= j < k ==> (#[trigger] out@[j]).0@ == gs[j],
                forall|j: int| 0 <= j < k ==> ((#[trigger] out@[j]).1 is Some <==> (has_module(
                    old(self)@.modules,
                    gs[j],
                ) || config_has(*config, gs[j]))),
                forall|n: Seq<char>| #[trigger] has_module(self@.modules, n) == (has_module(old(self)@.modules, n) || (
                    config_has(*config, n) && gs.take(k as int).contains(n))),
                forall|j: int| 0 <= j < groups@.len() ==> requests_view((#[trigger] groups@[j]).1@) == for_module(rs, gs[j]),
                rs == change_requests(changes@),
                self@.modules.len() >= old(self)@.modules.len(),
                forall|i: int| 0 <= i < old(self)@.modules.len() ==> (#[trigger] self@.modules[i]).name == old(self)@.modules[i].name,
                forall|i: int| 0 <= i < old(self)@.modules.len() && !gs.take(k as int).contains(old(self)@.modules[i].name)
                    ==> #[trigger] self@.modules[i] == old(self)@.modules[i],
                forall|i: int| old(self)@.modules.len() <= i < self@.modules.len() ==> gs.take(k as int).contains(
                    (#[trigger] self@.modules[i]).name,
                ),
                forall|j: int| 0 <= j < k ==> dispatched(
                    old(self)@.modules,
                    *config,
                    gs[j],
                    for_module(rs, gs[j]),
                    (#[trigger] out@[j]).1,
                    self@.modules,
                ),
            decreases groups.len() - k,
        {
            let name = groups[k].0.as_str();
            let batch = copy_batch(&groups[k].1);
            let ghost cur = self@.modules;
            let ghost g = gs[k as int];
            let ghost b = for_module(rs, g);
            let ghost before = self@;
            let r = self.send_to_module(name, batch, config);
            proof {
                assert(!gs.take(k as int).contains(gs[k as int])) by {
                    if gs.take(k as int).contains(gs[k as int]) {
                        let j = choose|j: int| 0 <= j < k && #[trigger] gs.take(k as int)[j] == gs[k as int];
                        assert(gs[j] == gs[k as int]);
                    }
                }
                assert forall|n: Seq<char>| #[trigger] has_module(self@.modules, n) == (has_module(old(self)@.modules, n) || (
                    config_has(*config, n) && gs.take(k as int + 1).contains(n))) by {
                    lemma_sent_to_has(before, *config, gs[k as int], requests_view(batch@), self@, r, n);
                    if gs.take(k as int + 1).contains(n) && n != gs[k as int] {
                        let j = choose|j: int| 0 <= j < k + 1 && #[trigger] gs.take(k as int + 1)[j] == n;
                        assert(gs.take(k as int)[j] == n);
                    }
                    if gs.take(k as int).contains(n) {
                        let j = choose|j: int| 0 <= j < k && #[trigger] gs.take(k as int)[j] == n;
                        assert(gs.take(k as int + 1)[j] == n);
                    }
                    if n == gs[k as int] {
                        assert(gs.take(k as int + 1)[k as int] == n);
                    }
                }
                lemma_sent_to_has(before, *config, gs[k as int], requests_view(batch@), self@, r, gs[k as int]);
                lemma_dispatch_step(old(self)@.modules, cur, *config, gs, k as int, b, r, self@.modules);
                assert forall|j: int| 0 <= j < k implies dispatched(
                    old(self)@.modules,
                    *config,
                    gs[j],
                    for_module(rs, gs[j]),
                    (#[trigger] out@[j]).1,
                    self@.modules,
                ) by {
                    lemma_dispatch_kept(old(self)@.modules, cur, *config, gs, k as int, b, r, self@.modules, j, for_module(rs, gs[j]), out@[j].1);
                }
            }
            let name_k = groups[k].0.clone();
            let ghost prev_out = out@;
            out.push((name_k, r));
            proof {
                assert forall|j: int| 0 <= j < k + 1 implies dispatched(
                    old(self)@.modules,
                    *config,
                    gs[j],
                    for_module(rs, gs[j]),
                    (#[trigger] out@[j]).1,
                    self@.modules,
                ) by {
                    if j < k {
                        assert(out@[j] == prev_out[j]);
                    }
                }
            }
            k = k + 1;
        }
        assert(gs.take(gs.len() as int) =~= gs);
        out
    }
}

impl Updater {
    /// Drains the discovery backlog: each deferred discovery becomes a
    /// `discovery` request stamped `ts` for its target module, one request
    /// file per module in order of first appearance, creating handles from
    /// the configuration; unknown modules are skipped.
    pub fn process_discovery_backlog(&mut self, config: &Config, ts: i64) -> (r: Vec<RequestFile>)
        requires
            old(self).wf(),
            config_valid(*config),
        ensures
            final(self).wf(),
            final(self)@.cache == old(self)@.cache,
            final(self)@.backlog.len() == 0,
            final(self)@.modules.len() >= old(self)@.modules.len(),
            forall|i: int| 0 <= i < old(self)@.modules.len() ==> #[trigger] final(self)@.modules[i] == old(self)@.modules[i],
            forall|n: Seq<char>| #[trigger] has_module(final(self)@.modules, n) == (has_module(old(self)@.modules, n) || (
                config_has(*config, n) && distinct_modules(backlog_requests(old(self)@.backlog, ts as int)).contains(n))),
            ({
                let rs = backlog_requests(old(self)@.backlog, ts as int);
                let known = known_only(distinct_modules(rs), old(self)@.modules, *config);
                &&& r@.len() == known.len()
                &&& forall|k: int| 0 <= k < r@.len() ==> {
                    &&& (#[trigger] r@[k]).path@ == crate::module::request_file_path(
                        inbox_of(known[k]),
                        for_module(rs, known[k]),
                    )
                    &&& r@[k].contents@ == crate::module::request_file_contents(for_module(rs, known[k]))
                }
            }),
    {
        let ghost rs = backlog_requests(old(self)@.backlog, ts as int);
        let mut backlog: Vec<Discovery> = Vec::new();
        std::mem::swap(&mut backlog, &mut self.discovery_backlog);
        assert(self@.backlog =~= Seq::<DiscoveryView>::empty());
        assert(self@.modules == old(self)@.modules);
        let mut requests: Vec<ModuleRequest> = Vec::new();
        let mut i: usize = 0;
        while i < backlog.len()
            invariant
                i <= backlog@.len(),
                backlog@.map_values(|d: Discovery| discovery_view(d)) == old(self)@.backlog,
                rs == backlog_requests(old(self)@.backlog, ts as int),
                requests_view(requests@) == rs.take(i as int),
            decreases backlog.len() - i,
        {
            let d = &backlog[i];
            let rq = ModuleRequest::discovery(d.resource.as_str(), d.module.as_str(), d.source.as_str(), ts);
            let ghost prev = requests@;
            let ghost rv = rq@;
            requests.push(rq);
            proof {
                assert(old(self)@.backlog[i as int] == discovery_view(backlog@[i as int]));
                assert(requests_view(requests@) =~= requests_view(prev).push(rv));
                assert(requests_view(requests@) =~= rs.take(i as int + 1));
            }
            i = i + 1;
        }
        assert(rs.take(backlog@.len() as int) =~= rs);
        let groups = group_by_module(&requests);
        let ghost gs = distinct_modules(rs);
        proof {
            lemma_distinct_unique(rs);
        }
        let mut out: Vec<RequestFile> = Vec::new();
        let mut k: usize = 0;
        while k < groups.len()
            invariant
                k <= groups@.len(),
                groups@.len() == gs.len(),
                gs == distinct_modules(rs),
                gs.no_duplicates(),
                forall|j: int| 0 <= j < groups@.len() ==> {
                    &&& (#[trigger] groups@[j]).0@ == gs[j]
                    &&& requests_view(groups@[j].1@) == for_module(rs, gs[j])
                },
                self.wf(),
                config_valid(*config),
                self@.cache == old(self)@.cache,
                self@.backlog.len() == 0,
                out@.len() == known_only(gs.take(k as int), old(self)@.modules, *config).len(),
                forall|j: int| 0 <= j < out@.len() ==> {
                    let known = known_only(gs.take(k as int), old(self)@.modules, *config);
                    &&& (#[trigger] out@[j]).path@ == crate::module::request_file_path(
                        inbox_of(known[j]),
                        for_module(rs, known[j]),
                    )
                    &&& out@[j].contents@ == crate::module::request_file_contents(for_module(rs, known[j]))
                },
                forall|n: Seq<char>| #[trigger] has_module(self@.modules, n) == (has_module(old(self)@.modules, n) || (
                    config_has(*config, n) && gs.take(k as int).contains(n))),
                self@.modules.len() >= old(self)@.modules.len(),
                forall|i: int| 0 <= i < old(self)@.modules.len() ==> #[trigger] self@.modules[i] == old(self)@.modules[i],
            decreases groups.len() - k,
        {
            let name = groups[k].0.as_str();
            let ghost before = self@;
            let ghost g = gs[k as int];
            proof {
                assert(gs.take(k as int + 1).drop_last() =~= gs.take(k as int));
                assert(gs.take(k as int + 1).last() == g);
                assert(!gs.take(k as int).contains(g)) by {
                    if gs.take(k as int).contains(g) {
                        let j = choose|j: int| 0 <= j < k && #[trigger] gs.take(k as int)[j] == g;
                        assert(gs[j] == g);
                    }
                }
            }
            let known = self.get_or_create_module(name, config);
            proof {
                lemma_created_prefix(before.modules, *config, g, self@.modules);
                assert forall|n: Seq<char>| #[trigger] has_module(self@.modules, n) == (has_module(old(self)@.modules, n) || (
                    config_has(*config, n) && gs.take(k as int + 1).contains(n))) by {
                    lemma_created_has(before.modules, *config, g, self@.modules, n);
                    if gs.take(k as int + 1).contains(n) && n != g {
                        let j = choose|j: int| 0 <= j < k + 1 && #[trigger] gs.take(k as int + 1)[j] == n;
                        assert(gs.take(k as int)[j] == n);
                    }
                    if gs.take(k as int).contains(n) {
                        let j = choose|j: int| 0 <= j < k && #[trigger] gs.take(k as int)[j] == n;
                        assert(gs.take(k as int + 1)[j] == n);
                    }
                    if n == g {
                        assert(gs.take(k as int + 1)[k as int] == n);
                    }
                }
            }
            if known {
                match self.find_module(name) {
                    Some(idx) => {
                        let file = self.modules[idx].write_requests(groups[k].1.as_slice());
                        proof {
                            assert(self@.modules[idx as int] == self.modules@[idx as int]@);
                            assert(gs.contains(g)) by {
                                assert(gs[k as int] == g);
                            }
                            lemma_distinct_nonempty(rs, g);
                        }
                        match file {
                            Some(f) => {
                                out.push(f);
                            },
                            None => {},
                        }
                    },
                    None => {},
                }
            }
            proof {
                let known_k = known_only(gs.take(k as int), old(self)@.modules, *config);
                let known_k1 = known_only(gs.take(k as int + 1), old(self)@.modules, *config);
                if has_module(old(self)@.modules, g) || config_has(*config, g) {
                    assert(known_k1 == known_k.push(g));
                } else {
                    assert(known_k1 == known_k);
                }
            }
            k = k + 1;
        }
        assert(gs.take(gs.len() as int) =~= gs);
        out
    }

    /// Fans a stored resource out to its module once per tick: a `discovery`
    /// and an `observation` request, both stamped `ts`. Nothing happens when
    /// the resource's key is already cached; the key is cached even when the
    /// module is unknown.
    pub fn initiate_requests(&mut self, resource: &Resource, config: &Config, ts: i64) -> (r: Option<StartPlan>)
        requires
            old(self).wf(),
            config_valid(*config),
        ensures
            final(self).wf(),
            initiated(old(self)@, *config, *resource, ts as int, final(self)@, r),
    {
        let mut key = resource.module.clone();
        key.append(" - ");
        key.append(resource.resource.as_str());
        if contains_key(&self.cache, &key) {
            return None;
        }
        let ghost k = key@;
        self.cache.push(key);
        assert(self@.cache =~= old(self)@.cache.push(k));
        assert(self@.modules == old(self)@.modules);
        let source = string_or_empty(&resource.source);
        let requests = vec![
            ModuleRequest::discovery(resource.resource.as_str(), resource.module.as_str(), source.as_str(), ts),
            ModuleRequest::observation(resource.resource.as_str(), resource.module.as_str(), ts),
        ];
        let ghost rs = requests_view(requests@);
        assert(rs =~= fan_out_requests(*resource, ts as int));
        self.send_to_module(resource.module.as_str(), requests, config)
    }

    /// Fans every stored resource out; see `initiate_requests`.
    pub fn setup_requests(&mut self, resources: &Vec<Resource>, config: &Config, ts: i64) -> (r: Vec<Option<StartPlan>>)
        requires
            old(self).wf(),
            config_valid(*config),
        ensures
            final(self).wf(),
            r@.len() == resources@.len(),
            exists|states: Seq<UpdaterView>|
                fan_out_steps(old(self)@, *config, resources@, ts as int, states, r@)
                    && #[trigger] states.last() == final(self)@,
            final(self)@.backlog == old(self)@.backlog,
            forall|i: int| 0 <= i < resources@.len() ==> final(self)@.cache.contains(
                cache_key((#[trigger] resources@[i]).module@, resources@[i].resource@),
            ),
            forall|x: Seq<char>| old(self)@.cache.contains(x) ==> #[trigger] final(self)@.cache.contains(x),
            forall|i: int| 0 <= i < resources@.len() && (#[trigger] r@[i]) is Some ==> {
                &&& has_module(final(self)@.modules, resources@[i].module@)
                &&& !old(self)@.cache.contains(cache_key(resources@[i].module@, resources@[i].resource@))
                &&& forall|j: int| 0 <= j < i ==> cache_key(resources@[j].module@, resources@[j].resource@)
                    != cache_key(resources@[i].module@, resources@[i].resource@)
            },
    {
        let mut out: Vec<Option<StartPlan>> = Vec::new();
        let mut i: usize = 0;
        let ghost mut states: Seq<UpdaterView> = seq![self@];
        assert(resources@.take(0) =~= Seq::<Resource>::empty());
        while i < resources.len()
            invariant
                i <= resources@.len(),
                out@.len() == i,
                self.wf(),
                config_valid(*config),
                self@.backlog == old(self)@.backlog,
                forall|j: int| 0 <= j < i ==> self@.cache.contains(
                    cache_key((#[trigger] resources@[j]).module@, resources@[j].resource@),
                ),
                forall|x: Seq<char>| old(self)@.cache.contains(x) ==> #[trigger] self@.cache.contains(x),
                fan_out_steps(old(self)@, *config, resources@.take(i as int), ts as int, states, out@),
                states.last() == self@,
                forall|j: int| 0 <= j < i && (#[trigger] out@[j]) is Some ==> {
                    &&& has_module(self@.modules, resources@[j].module@)
                    &&& !old(self)@.cache.contains(cache_key(resources@[j].module@, resources@[j].resource@))
                    &&& forall|j2: int| 0 <= j2 < j ==> cache_key(resources@[j2].module@, resources@[j2].resource@)
                        != cache_key(resources@[j].module@, resources@[j].resource@)
                },
            decreases resources.len() - i,
        {
            let ghost before = self@;
            let ghost key_i = cache_key(resources@[i as int].module@, resources@[i as int].resource@);
            let r = self.initiate_requests(&resources[i], config, ts);
            proof {
                let pushed = UpdaterView { cache: before.cache.push(key_i), ..before };
                assert forall|x: Seq<char>| old(self)@.cache.contains(x) implies #[trigger] self@.cache.contains(x) by {
                    assert(before.cache.contains(x));
                    if !before.cache.contains(key_i) {
                        assert(self@.cache == before.cache.push(key_i));
                        let w = choose|w: int| 0 <= w < before.cache.len() && before.cache[w] == x;
                        assert(self@.cache[w] == x);
                    }
                }
                assert forall|j: int| 0 <= j < i && (#[trigger] out@[j]) is Some implies has_module(
                    self@.modules,
                    resources@[j].module@,
                ) by {
                    if !before.cache.contains(key_i) {
                        lemma_sent_to_has(pushed, *config, resources@[i as int].module@, seq![
                            RequestView::discovery(
                                resources@[i as int].resource@,
                                resources@[i as int].module@,
                                opt_or_empty(opt_view(resources@[i as int].source)),
                                ts as int,
                            ),
                            RequestView::observation(resources@[i as int].resource@, resources@[i as int].module@, ts as int),
                        ], self@, r, resources@[j].module@);
                    }
                }
                if r is Some {
                    assert(!before.cache.contains(key_i));
                    lemma_sent_to_has(pushed, *config, resources@[i as int].module@, seq![
                        RequestView::discovery(
                            resources@[i as int].resource@,
                            resources@[i as int].module@,
                            opt_or_empty(opt_view(resources@[i as int].source)),
                            ts as int,
                        ),
                        RequestView::observation(resources@[i as int].resource@, resources@[i as int].module@, ts as int),
                    ], self@, r, resources@[i as int].module@);
                    assert forall|j2: int| 0 <= j2 < i implies cache_key(resources@[j2].module@, resources@[j2].resource@)
                        != key_i by {
                        assert(before.cache.contains(cache_key(resources@[j2].module@, resources@[j2].resource@)));
                    }
                }
            }
            let ghost prev_out = out@;
            proof {
                assert forall|j: int| 0 <= j < i + 1 implies self@.cache.contains(
                    cache_key((#[trigger] resources@[j]).module@, resources@[j].resource@),
                ) by {
                    let key = cache_key(resources@[j].module@, resources@[j].resource@);
                    if before.cache.contains(key) {
                        let w = choose|w: int| 0 <= w < before.cache.len() && before.cache[w] == key;
                        assert(before.cache.push(cache_key(resources@[i as int].module@, resources@[i as int].resource@))[w] == key);
                    } else {
                        assert(j == i);
                        assert(before.cache.push(key)[before.cache.len() as int] == key);
                    }
                }
            }
            out.push(r);
            proof {
                assert forall|j: int| 0 <= j < i + 1 && (#[trigger] out@[j]) is Some implies {
                    &&& has_module(self@.modules, resources@[j].module@)
                    &&& !old(self)@.cache.contains(cache_key(resources@[j].module@, resources@[j].resource@))
                    &&& forall|j2: int| 0 <= j2 < j ==> cache_key(resources@[j2].module@, resources@[j2].resource@)
                        != cache_key(resources@[j].module@, resources@[j].resource@)
                } by {
                    if j < i {
                        assert(out@[j] == prev_out[j]);
                    }
                }
                let t = resources@.take(i as int + 1);
                let ns = states.push(self@);
                assert forall|k: int| 0 <= k < t.len() implies initiated(
                    #[trigger] ns[k],
                    *config,
                    t[k],
                    ts as int,
                    ns[k + 1],
                    out@[k],
                ) by {
                    if k < i {
                        assert(ns[k] == states[k] && ns[k + 1] == states[k + 1]);
                        assert(t[k] == resources@.take(i as int)[k]);
                        assert(out@[k] == prev_out[k]);
                    } else {
                        assert(ns[k] == before);
                        assert(ns[k + 1] == self@);
                        assert(t[k] == resources@[i as int]);
                    }
                }
                assert(fan_out_steps(old(self)@, *config, t, ts as int, ns, out@));
            }
            proof {
                states = states.push(self@);
            }
            i = i + 1;
        }
        assert(resources@.take(resources@.len() as int) =~= resources@);
        assert(states.last() == self@);
        out
    }

    /// Sends a configured target's resource to an existing handle: one
    /// `discovery` request with source `config.json`, stamped `ts`.
    pub fn process_config_target(&mut self, resource: &str, module_name: &str, ts: i64) -> (r: Option<StartPlan>)
        requires
            old(self).wf(),
        ensures
            final(self).wf(),
            !has_module(old(self)@.modules, module_name@) ==> r is None && final(self)@ == old(self)@,
            has_module(old(self)@.modules, module_name@) ==> exists|i: int|
                0 <= i < old(self)@.modules.len() && (#[trigger] old(self)@.modules[i]).name == module_name@
                    && final(self)@ == (UpdaterView {
                    modules: old(self)@.modules.update(
                        i,
                        sent(
                            old(self)@.modules[i],
                            seq![RequestView::discovery(resource@, module_name@, "config.json"@, ts as int)],
                        ),
                    ),
                    ..old(self)@
                }) && (r matches Some(p) && start_plan(
                    queued(
                        old(self)@.modules[i],
                        seq![RequestView::discovery(resource@, module_name@, "config.json"@, ts as int)],
                    ),
                    p,
                )),
    {
        match self.find_module(module_name) {
            Some(i) => {
                let request = ModuleRequest::discovery(resource, module_name, "config.json", ts);
                let ghost rv = request@;
                let requests = vec![request];
                assert(requests_view(requests@) =~= seq![rv]);
                let p = self.send_at(i, requests);
                assert(final(self)@.modules[i as int].name == module_name@);
                Some(p)
            },
            None => None,
        }
    }
}

fn contains_key(keys: &Vec<String>, key: &String) -> (r: bool)
    ensures
        r == keys@.map_values(|k: String| k@).contains(key@),
{
    let ghost v = keys@.map_values(|k: String| k@);
    let mut i: usize = 0;
    while i < keys.len()
        invariant
            i <= keys@.len(),
            v == keys@.map_values(|k: String| k@),
            forall|j: int| 0 <= j < i ==> v[j] != key@,
        decreases keys.len() - i,
    {
        if keys[i] == *key {
            assert(v[i as int] == key@);
            return true;
        }
        i = i + 1;
    }
    false
}

/// Facts shared by the two dispatch lemmas: the state before step `k` and
/// what `send_to_module` did at that step.
pub open spec fn dispatch_step(
    old_mods: Seq<ModuleView>,
    cur: Seq<ModuleView>,
    config: Config,
    gs: Seq<Seq<char>>,
    k: int,
    b: Seq<RequestView>,
    r: Option<StartPlan>,
    after: Seq<ModuleView>,
) -> bool {
    &&& 0 <= k < gs.len()
    &&& gs.no_duplicates()
    &&& cur.len() >= old_mods.len()
    &&& forall|i: int| 0 <= i < old_mods.len() ==> (#[trigger] cur[i]).name == old_mods[i].name
    &&& forall|i: int| 0 <= i < old_mods.len() && !gs.take(k).contains(old_mods[i].name)
        ==> #[trigger] cur[i] == old_mods[i]
    &&& forall|i: int| old_mods.len() <= i < cur.len() ==> gs.take(k).contains((#[trigger] cur[i]).name)
    &&& forall|n: Seq<char>| #[trigger] has_module(cur, n) == (has_module(old_mods, n) || (
        config_has(config, n) && gs.take(k).contains(n)))
    &&& forall|i: int, j: int| 0 <= i < j < cur.len() ==> (#[trigger] cur[i]).name != (#[trigger] cur[j]).name
    &&& (r is Some <==> (has_module(cur, gs[k]) || config_has(config, gs[k])))
    &&& r is None ==> after == cur
    &&& r matches Some(p) ==> exists|mods: Seq<ModuleView>, i: int|
        created(cur, config, gs[k], mods) && 0 <= i < mods.len()
            && (#[trigger] mods[i]).name == gs[k]
            && after == mods.update(i, sent(mods[i], b))
            && start_plan(queued(mods[i], b), p)
}

proof fn lemma_not_in_prefix(gs: Seq<Seq<char>>, k: int)
    requires
        0 <= k < gs.len(),
        gs.no_duplicates(),
    ensures
        !gs.take(k).contains(gs[k]),
{
    if gs.take(k).contains(gs[k]) {
        let j = choose|j: int| 0 <= j < k && #[trigger] gs.take(k)[j] == gs[k];
        assert(gs[j] == gs[k]);
    }
}

proof fn lemma_dispatch_step(
    old_mods: Seq<ModuleView>,
    cur: Seq<ModuleView>,
    config: Config,
    gs: Seq<Seq<char>>,
    k: int,
    b: Seq<RequestView>,
    r: Option<StartPlan>,
    after: Seq<ModuleView>,
)
    requires
        dispatch_step(old_mods, cur, config, gs, k, b, r, after),
    ensures
        after.len() >= old_mods.len(),
        forall|i: int| 0 <= i < old_mods.len() ==> (#[trigger] after[i]).name == old_mods[i].name,
        forall|i: int| 0 <= i < old_mods.len() && !gs.take(k + 1).contains(old_mods[i].name)
            ==> #[trigger] after[i] == old_mods[i],
        forall|i: int| old_mods.len() <= i < after.len() ==> gs.take(k + 1).contains((#[trigger] after[i]).name),
        dispatched(old_mods, config, gs[k], b, r, after),
{
    let g = gs[k];
    lemma_not_in_prefix(gs, k);
    assert forall|n: Seq<char>| gs.take(k).contains(n) implies gs.take(k + 1).contains(n) by {
        let j = choose|j: int| 0 <= j < k && #[trigger] gs.take(k)[j] == n;
        assert(gs.take(k + 1)[j] == n);
    }
    assert(gs.take(k + 1)[k] == g);
    if r is Some {
        let p = r->Some_0;
        let (mods, i) = choose|mods: Seq<ModuleView>, i: int|
            created(cur, config, g, mods) && 0 <= i < mods.len()
                && (#[trigger] mods[i]).name == g
                && after == mods.update(i, sent(mods[i], b))
                && start_plan(queued(mods[i], b), p);
        let m = mods[i];
        if has_module(cur, g) || !config_has(config, g) {
            assert(mods == cur);
            assert(has_module(cur, g));
            assert(i < old_mods.len()) by {
                if i >= old_mods.len() {
                    assert(gs.take(k).contains(cur[i].name));
                }
            }
            assert(cur[i] == old_mods[i]);
            assert(handle_for(old_mods, config, g, m));
        } else {
            let j = choose|j: int|
                0 <= j < config.modules@.len() && (#[trigger] config.modules@[j]).0@ == g
                    && mods == cur.push(
                    fresh_module(g, config.modules@[j].1.command@, config.modules@[j].1.slow),
                );
            assert(i == cur.len()) by {
                if i < cur.len() {
                    assert(mods[i] == cur[i]);
                    assert(has_module(cur, g));
                }
            }
            assert(!has_module(old_mods, g));
            assert(handle_for(old_mods, config, g, m));
        }
        assert(after[i] == sent(m, b));
        assert(after.contains(sent(m, b)));
        assert forall|x: int| 0 <= x < old_mods.len() implies (#[trigger] after[x]).name == old_mods[x].name by {
            assert(mods[x] == cur[x]);
            assert(cur[x].name == old_mods[x].name);
        }
        assert forall|x: int| 0 <= x < old_mods.len() && !gs.take(k + 1).contains(old_mods[x].name)
            implies #[trigger] after[x] == old_mods[x] by {
            assert(!gs.take(k).contains(old_mods[x].name));
            assert(cur[x] == old_mods[x]);
            assert(x < cur.len());
            assert(mods[x] == cur[x]);
            assert(x != i);
        }
        assert forall|x: int| old_mods.len() <= x < after.len() implies gs.take(k + 1).contains((#[trigger] after[x]).name) by {
            if x == i {
                assert(after[x].name == g);
            } else if x < cur.len() {
                assert(mods[x] == cur[x]);
                assert(gs.take(k).contains(cur[x].name));
            } else {
                assert(mods[x].name == g);
            }
        }
    } else {
        assert forall|x: int| 0 <= x < old_mods.len() && !gs.take(k + 1).contains(old_mods[x].name)
            implies #[trigger] after[x] == old_mods[x] by {
            assert(!gs.take(k).contains(old_mods[x].name));
        }
        assert forall|x: int| old_mods.len() <= x < after.len() implies gs.take(k + 1).contains((#[trigger] after[x]).name) by {
            assert(gs.take(k).contains(cur[x].name));
        }
    }
}

proof fn lemma_dispatch_kept(
    old_mods: Seq<ModuleView>,
    cur: Seq<ModuleView>,
    config: Config,
    gs: Seq<Seq<char>>,
    k: int,
    b: Seq<RequestView>,
    r: Option<StartPlan>,
    after: Seq<ModuleView>,
    j: int,
    bj: Seq<RequestView>,
    rj: Option<StartPlan>,
)
    requires
        dispatch_step(old_mods, cur, config, gs, k, b, r, after),
        0 <= j < k,
        dispatched(old_mods, config, gs[j], bj, rj, cur),
    ensures
        dispatched(old_mods, config, gs[j], bj, rj, after),
{
    if rj is Some && r is Some {
        let pj = rj->Some_0;
        let m = choose|m: ModuleView|
            handle_for(old_mods, config, gs[j], m) && start_plan(queued(m, bj), pj) && cur.contains(
                #[trigger] sent(m, bj),
            );
        let idx = choose|idx: int| 0 <= idx < cur.len() && cur[idx] == sent(m, bj);
        let p = r->Some_0;
        let (mods, i) = choose|mods: Seq<ModuleView>, i: int|
            created(cur, config, gs[k], mods) && 0 <= i < mods.len()
                && (#[trigger] mods[i]).name == gs[k]
                && after == mods.update(i, sent(mods[i], b))
                && start_plan(queued(mods[i], b), p);
        assert(m.name == gs[j]);
        assert(gs[j] != gs[k]);
        if has_module(cur, gs[k]) || !config_has(config, gs[k]) {
            assert(mods == cur);
        } else {
            let w = choose|w: int|
                0 <= w < config.modules@.len() && (#[trigger] config.modules@[w]).0@ == gs[k]
                    && mods == cur.push(
                    fresh_module(gs[k], config.modules@[w].1.command@, config.modules@[w].1.slow),
                );
            assert(mods[idx] == cur[idx]);
        }
        assert(idx != i);
        assert(after[idx] == sent(m, bj));
        assert(after.contains(sent(m, bj)));
    }
}

fn copy_batch(rs: &Vec<ModuleRequest>) -> (r: Vec<ModuleRequest>)
    ensures
        requests_view(r@) == requests_view(rs@),
{
    let mut out: Vec<ModuleRequest> = Vec::new();
    let mut i: usize = 0;
    while i < rs.len()
        invariant
            i <= rs@.len(),
            requests_view(out@) == requests_view(rs@).take(i as int),
        decreases rs.len() - i,
    {
        let ghost prev = out@;
        out.push(rs[i].copy());
        assert(requests_view(out@) =~= requests_view(prev).push(rs@[i as int]@));
        assert(requests_view(out@) =~= requests_view(rs@).take(i as int + 1));
        i = i + 1;
    }
    assert(requests_view(rs@).take(rs@.len() as int) =~= requests_view(rs@));
    out
}

/// Index of the first configuration entry named `name`.
pub fn find_config(config: &Config, name: &str) -> (r: Option<usize>)
    ensures
        r matches Some(j) ==> j < config.modules@.len() && config.modules@[j as int].0@ == name@,
        r is None ==> !config_has(*config, name@),
{
    let mut j: usize = 0;
    while j < config.modules.len()
        invariant
            j <= config.modules@.len(),
            forall|k: int| 0 <= k < j ==> (#[trigger] config.modules@[k]).0@ != name@,
        decreases config.modules.len() - j,
    {
        if config.modules[j].0 == String::from_str(name) {
            return Some(j);
        }
        j = j + 1;
    }
    None
}

} // verus!

verus! {

/// A discovery that one module suggests for another is drained as exactly
/// one `discovery` request, addressed to the suggested module, whenever that
/// module has a handle or a configuration entry.
pub proof fn lemma_redirect_single(d: DiscoveryView, ts: int, mods: Seq<ModuleView>, config: Config)
    requires
        has_module(mods, d.1) || config_has(config, d.1),
    ensures
        distinct_modules(backlog_requests(seq![d], ts)) == seq![d.1],
        known_only(distinct_modules(backlog_requests(seq![d], ts)), mods, config) == seq![d.1],
        for_module(backlog_requests(seq![d], ts), d.1) == seq![RequestView::discovery(d.0, d.1, d.2, ts)],
{
    let rs = backlog_requests(seq![d], ts);
    assert(rs.len() == 1);
    assert(rs[0] == RequestView::discovery(d.0, d.1, d.2, ts));
    assert(rs.drop_last() =~= Seq::<RequestView>::empty());
    assert(distinct_modules(rs.drop_last()) =~= Seq::<Seq<char>>::empty());
    assert(!Seq::<Seq<char>>::empty().contains(d.1));
    assert(distinct_modules(rs) =~= seq![d.1]);
    assert(for_module(rs.drop_last(), d.1) =~= Seq::<RequestView>::empty());
    assert(seq![d.1].drop_last() =~= Seq::<Seq<char>>::empty());
    assert(seq![d.1].last() == d.1);
    assert(known_only(seq![d.1].drop_last(), mods, config) =~= Seq::<Seq<char>>::empty());
    assert(known_only(seq![d.1], mods, config) =~= seq![d.1]);
    assert(for_module(rs, d.1) =~= seq![RequestView::discovery(d.0, d.1, d.2, ts)]);
}

} // verus!
