use vstd::prelude::*;
use vstd::string::*;
use crate::json::{batch_identity, batch_json, identity_fields, identity_json, requests_to_json};
use crate::types::{ModuleRequest, RequestView, requests_view};
use crate::utils::{sha256, sha256_hex_of};

verus! {

/// Characters with the Unicode White_Space property.
pub open spec fn whitespace_char(c: char) -> bool {
    ||| '\t' <= c && c <= '\r'
    ||| c == ' ' || c == '\u{85}' || c == '\u{A0}' || c == '\u{1680}'
    ||| '\u{2000}' <= c && c <= '\u{200A}'
    ||| c == '\u{2028}' || c == '\u{2029}' || c == '\u{202F}' || c == '\u{205F}' || c == '\u{3000}'
}

/// Characters that a module name must not contain.
pub open spec fn forbidden_name_char(c: char) -> bool {
    whitespace_char(c) || c == '/' || c == '.' || c == ',' || c == '\'' || c == '"'
}

fn is_forbidden_name_char(c: char) -> (r: bool)
    ensures
        r == forbidden_name_char(c),
{
    ('\t' <= c && c <= '\r') || c == ' ' || c == '\u{85}' || c == '\u{A0}' || c == '\u{1680}'
        || ('\u{2000}' <= c && c <= '\u{200A}') || c == '\u{2028}' || c == '\u{2029}'
        || c == '\u{202F}' || c == '\u{205F}' || c == '\u{3000}' || c == '/' || c == '.'
        || c == ',' || c == '\'' || c == '"'
}

pub open spec fn valid_module_name(name: Seq<char>) -> bool {
    forall|i: int| 0 <= i < name.len() ==> !forbidden_name_char(#[trigger] name[i])
}

/// Whether `name` may identify a module.
pub fn is_valid_module_name(name: &str) -> (r: bool)
    ensures
        r == valid_module_name(name@),
{
    let n = name.unicode_len();
    let mut i: usize = 0;
    while i < n
        invariant
            n == name@.len(),
            i <= n,
            forall|k: int| 0 <= k < i ==> !forbidden_name_char(#[trigger] name@[k]),
        decreases n - i,
    {
        let c = name.get_char(i);
        if is_forbidden_name_char(c) {
            return false;
        }
        i = i + 1;
    }
    true
}

/// Directory shared by all modules; module folders live below it.
pub open spec fn state_root() -> Seq<char> {
    "/paintdry/mount-state/"@
}

pub open spec fn inbox_of(name: Seq<char>) -> Seq<char> {
    state_root() + "modules/"@ + name + "/requests"@
}

pub open spec fn outbox_of(name: Seq<char>) -> Seq<char> {
    state_root() + "modules/"@ + name + "/responses"@
}

/// Shell command line that runs a module on its inbox, outbox and cache.
pub open spec fn command_line(command: Seq<char>, name: Seq<char>) -> Seq<char> {
    command + " '"@ + inbox_of(name) + "' '"@ + outbox_of(name) + "' '"@ + state_root() + "' 2>&1"@
}

/// Path of the request file for a batch: named by the digest of the batch's
/// timestamp-free serialization.
pub open spec fn request_file_path(inbox: Seq<char>, rs: Seq<RequestView>) -> Seq<char> {
    inbox + "/"@ + sha256_hex_of(batch_identity(rs)) + ".json"@
}

/// Contents of the request file for a batch.
pub open spec fn request_file_contents(rs: Seq<RequestView>) -> Seq<char> {
    batch_json(rs) + "\n"@
}

/// A file to be written atomically, unless a file of that path already exists.
pub struct RequestFile {
    pub path: String,
    pub contents: String,
}

/// What `start` asks of the process around the handle.
pub struct StartPlan {
    pub file: Option<RequestFile>,
    pub spawn: bool,
}

/// One step of draining a module completely.
pub enum HarvestStep {
    /// Wait for the running child to finish, then report it with `process_exited`.
    Wait,
    /// Call `start` and carry out its plan.
    Start,
    /// Consume the response files in the outbox.
    Collect,
}

/// An entry of a module's outbox directory.
pub struct OutboxEntry {
    pub name: String,
    pub is_file: bool,
}

/// Whether a file name has the extension `json` (a name that is only
/// `.json` has no extension).
pub open spec fn has_json_extension(name: Seq<char>) -> bool {
    name.len() > 5 && name.subrange(name.len() - 5, name.len() as int) == ".json"@
}

/// Paths of the response files to consume, in listing order.
pub open spec fn response_files(outbox: Seq<char>, entries: Seq<(Seq<char>, bool)>) -> Seq<Seq<char>>
    decreases entries.len(),
{
    if entries.len() == 0 {
        Seq::empty()
    } else {
        let rest = response_files(outbox, entries.drop_last());
        let e = entries.last();
        if e.1 && has_json_extension(e.0) {
            rest.push(outbox_path(outbox, e.0))
        } else {
            rest
        }
    }
}

pub open spec fn entries_view(es: Seq<OutboxEntry>) -> Seq<(Seq<char>, bool)> {
    es.map_values(|e: OutboxEntry| (e.name@, e.is_file))
}

/// The handle after `start`.
pub open spec fn started(m: ModuleView) -> ModuleView {
    if m.running {
        m
    } else {
        ModuleView { running: !m.slow, backlog: Seq::empty(), ..m }
    }
}

/// What `start` asks for: nothing while a child runs; otherwise the request
/// file of the backlog (none when it is empty) and a spawn unless slow.
pub open spec fn start_plan(m: ModuleView, plan: StartPlan) -> bool {
    if m.running {
        plan.file is None && !plan.spawn
    } else {
        &&& plan.spawn == !m.slow
        &&& (m.backlog.len() == 0 <==> plan.file is None)
        &&& plan.file matches Some(f) ==> {
            &&& f.path@ == request_file_path(m.inbox, m.backlog)
            &&& f.contents@ == request_file_contents(m.backlog)
        }
    }
}

/// The handle with requests appended to its backlog.
pub open spec fn queued(m: ModuleView, rs: Seq<RequestView>) -> ModuleView {
    ModuleView { backlog: m.backlog + rs, ..m }
}

/// The handle after `send_requests`.
pub open spec fn sent(m: ModuleView, rs: Seq<RequestView>) -> ModuleView {
    started(queued(m, rs))
}

pub struct ModuleView {
    pub name: Seq<char>,
    pub slow: bool,
    pub command: Seq<char>,
    pub inbox: Seq<char>,
    pub outbox: Seq<char>,
    /// Whether a child runs; never for a slow handle.
    pub running: bool,
    pub backlog: Seq<RequestView>,
}

/// Handle on one module: its folders, whether its child runs, and the
/// requests waiting for the next start.
pub struct Module {
    pub name: String,
    pub slow: bool,
    command: String,
    input_folder: String,
    output_folder: String,
    running: bool,
    request_backlog: Vec<ModuleRequest>,
}

impl View for Module {
    type V = ModuleView;

    closed spec fn view(&self) -> ModuleView {
        ModuleView {
            name: self.name@,
            slow: self.slow,
            command: self.command@,
            inbox: self.input_folder@,
            outbox: self.output_folder@,
            running: self.running && !self.slow,
            backlog: requests_view(self.request_backlog@),
        }
    }
}

fn concat3(a: &str, b: &str, c: &str) -> (r: String)
    ensures
        r@ == a@ + b@ + c@,
{
    let mut s = String::from_str(a);
    s.append(b);
    s.append(c);
    s
}

impl Module {
    /// A handle for module `name`, run by the shell command `command`.
    pub fn new(name: &str, command: &str, slow: bool) -> (r: Self)
        requires
            valid_module_name(name@),
        ensures
            r@.name == name@,
            r@.slow == slow,
            r@.command == command_line(command@, name@),
            r@.inbox == inbox_of(name@),
            r@.outbox == outbox_of(name@),
            !r@.running,
            r@.slow ==> !r@.running,
            r@.backlog.len() == 0,
    {
        let module_folder = concat3("/paintdry/mount-state/", "modules/", name);
        let input_folder = concat3(module_folder.as_str(), "/requests", "");
        let output_folder = concat3(module_folder.as_str(), "/responses", "");
        let mut full = concat3(command, " '", input_folder.as_str());
        full.append("' '");
        full.append(output_folder.as_str());
        full.append("' '");
        full.append("/paintdry/mount-state/");
        full.append("' 2>&1");
        proof {
            reveal_strlit("");
            assert(input_folder@ =~= inbox_of(name@));
            assert(output_folder@ =~= outbox_of(name@));
            assert(full@ =~= command_line(command@, name@));
        }
        let r = Module {
            name: String::from_str(name),
            slow,
            command: full,
            input_folder,
            output_folder,
            running: false,
            request_backlog: Vec::new(),
        };
        assert(r@.backlog =~= Seq::<RequestView>::empty());
        r
    }

    pub fn name_string(&self) -> (r: String)
        ensures
            r@ == self@.name,
    {
        self.name.clone()
    }

    pub fn command(&self) -> (r: &String)
        ensures
            r@ == self@.command,
    {
        &self.command
    }

    pub fn input_folder(&self) -> (r: &String)
        ensures
            r@ == self@.inbox,
    {
        &self.input_folder
    }

    pub fn output_folder(&self) -> (r: &String)
        ensures
            r@ == self@.outbox,
    {
        &self.output_folder
    }

    pub fn is_running(&self) -> (r: bool)
        ensures
            r == self@.running,
    {
        self.running && !self.slow
    }

    pub fn name_matches(&self, name: &str) -> (r: bool)
        ensures
            r == (self@.name == name@),
    {
        self.name == String::from_str(name)
    }

    /// Records that the child has finished, or could not be spawned.
    pub fn process_exited(&mut self)
        ensures
            final(self)@ == (ModuleView { running: false, ..old(self)@ }),
            final(self)@.slow ==> !final(self)@.running,
    {
        self.running = false;
    }

    /// The request file for a batch, or `None` for an empty batch.
    pub fn write_requests(&self, requests: &[ModuleRequest]) -> (r: Option<RequestFile>)
        ensures
            requests@.len() == 0 <==> r is None,
            r matches Some(f) ==> {
                &&& f.path@ == request_file_path(self@.inbox, requests_view(requests@))
                &&& f.contents@ == request_file_contents(requests_view(requests@))
            },
    {
        if requests.len() == 0 {
            return None;
        }
        let identity = requests_to_json(requests, true);
        let checksum = sha256(identity.as_str());
        let mut path = concat3(self.input_folder.as_str(), "/", checksum.as_str());
        path.append(".json");
        let mut contents = requests_to_json(requests, false);
        contents.append("\n");
        Some(RequestFile { path, contents })
    }

    /// Flushes the backlog to a request file and spawns the child, unless a
    /// child is running. A slow module is never spawned.
    pub fn start(&mut self) -> (plan: StartPlan)
        ensures
            final(self)@ == started(old(self)@),
            start_plan(old(self)@, plan),
            old(self)@.slow ==> !old(self)@.running,
            final(self)@.slow ==> !final(self)@.running,
    {
        if self.running && !self.slow {
            return StartPlan { file: None, spawn: false };
        }
        let mut backlog: Vec<ModuleRequest> = Vec::new();
        std::mem::swap(&mut backlog, &mut self.request_backlog);
        let file = self.write_requests(backlog.as_slice());
        let spawn = !self.slow;
        self.running = spawn;
        proof {
            assert(self@.backlog =~= Seq::<RequestView>::empty());
            assert(backlog@ == old(self).request_backlog@);
        }
        StartPlan { file, spawn }
    }

    /// Appends requests to the backlog, then starts the module.
    pub fn send_requests(&mut self, requests: Vec<ModuleRequest>) -> (plan: StartPlan)
        ensures
            final(self)@ == sent(old(self)@, requests_view(requests@)),
            start_plan(queued(old(self)@, requests_view(requests@)), plan),
            old(self)@.slow ==> !old(self)@.running,
            final(self)@.slow ==> !final(self)@.running,
    {
        let mut requests = requests;
        let ghost added = requests@;
        self.request_backlog.append(&mut requests);
        assert(self@.backlog =~= old(self)@.backlog + requests_view(added));
        self.start()
    }

    /// The steps that drain this module completely: a slow module is only
    /// collected; another is waited for, started once more, waited for, and
    /// collected.
    pub fn process_all_responses(&self) -> (r: Vec<HarvestStep>)
        ensures
            self@.slow ==> r@.len() == 1 && r@[0] is Collect,
            !self@.slow ==> r@.len() == 4 && r@[0] is Wait && r@[1] is Start && r@[2] is Wait
                && r@[3] is Collect,
    {
        if self.slow {
            vec![HarvestStep::Collect]
        } else {
            vec![HarvestStep::Wait, HarvestStep::Start, HarvestStep::Wait, HarvestStep::Collect]
        }
    }

    /// Paths of the outbox's response files (regular files with the
    /// extension `json`), each once, in listing order.
    pub fn process_responses(&self, entries: &Vec<OutboxEntry>) -> (r: Vec<String>)
        ensures
            r@.map_values(|p: String| p@) == response_files(self@.outbox, entries_view(entries@)),
    {
        let mut out: Vec<String> = Vec::new();
        let mut i: usize = 0;
        while i < entries.len()
            invariant
                i <= entries@.len(),
                out@.map_values(|p: String| p@) == response_files(
                    self@.outbox,
                    entries_view(entries@).take(i as int),
                ),
            decreases entries.len() - i,
        {
            let e = &entries[i];
            let ghost ev = entries_view(entries@);
            proof {
                assert(ev.take(i as int + 1).drop_last() =~= ev.take(i as int));
                assert(ev.take(i as int + 1).last() == (e.name@, e.is_file));
            }
            if e.is_file && has_json_name(&e.name) {
                let p = concat3(self.output_folder.as_str(), "/", e.name.as_str());
                let ghost prev = out@;
                out.push(p);
                assert(out@.map_values(|p: String| p@) =~= prev.map_values(|p: String| p@).push(
                    outbox_path(self@.outbox, e.name@),
                ));
            }
            i = i + 1;
        }
        assert(entries_view(entries@).take(entries@.len() as int) =~= entries_view(entries@));
        out
    }
}

fn has_json_name(name: &String) -> (r: bool)
    ensures
        r == has_json_extension(name@),
{
    let n = name.as_str().unicode_len();
    if n <= 5 {
        return false;
    }
    let tail = String::from_str(name.as_str().substring_char(n - 5, n));
    tail == String::from_str(".json")
}

} // verus!

verus! {

/// Two batches whose requests agree on everything but their timestamps are
/// written to the same request file: re-sending a batch later creates no new
/// file.
pub proof fn lemma_dedupe_modulo_timestamps(inbox: Seq<char>, a: Seq<RequestView>, b: Seq<RequestView>)
    requires
        a.len() == b.len(),
        forall|i: int| 0 <= i < a.len() ==> (#[trigger] a[i]).without_timestamp() == b[i].without_timestamp(),
    ensures
        request_file_path(inbox, a) == request_file_path(inbox, b),
{
    assert forall|i: int| 0 <= i < a.len() implies identity_json(#[trigger] a[i]) == identity_json(b[i]) by {
        assert(a[i].without_timestamp() == b[i].without_timestamp());
        assert(a[i].attribute == b[i].attribute);
        assert(identity_fields(a[i]) == identity_fields(b[i]));
    }
    assert(a.map_values(|r: RequestView| identity_json(r)) =~= b.map_values(|r: RequestView| identity_json(r)));
}

} // verus!

verus! {

/// The path of a file in the outbox.
pub open spec fn outbox_path(outbox: Seq<char>, name: Seq<char>) -> Seq<char> {
    outbox + "/"@ + name
}

proof fn lemma_outbox_path_injective(outbox: Seq<char>, a: Seq<char>, b: Seq<char>)
    requires
        outbox_path(outbox, a) == outbox_path(outbox, b),
    ensures
        a == b,
{
    let pre = outbox + "/"@;
    assert((pre + a).skip(pre.len() as int) =~= a);
    assert((pre + b).skip(pre.len() as int) =~= b);
    assert(outbox + "/"@ + a == pre + a);
    assert(outbox + "/"@ + b == pre + b);
}

/// Of a listing with distinct names, the response files to consume are
/// exactly its regular `.json` files, each named once.
pub proof fn lemma_each_response_file_once(outbox: Seq<char>, entries: Seq<(Seq<char>, bool)>)
    requires
        forall|i: int, j: int| 0 <= i < j < entries.len() ==> (#[trigger] entries[i]).0 != (#[trigger] entries[j]).0,
    ensures
        response_files(outbox, entries).no_duplicates(),
        forall|i: int| 0 <= i < entries.len() && (#[trigger] entries[i]).1 && has_json_extension(entries[i].0)
            ==> response_files(outbox, entries).contains(outbox_path(outbox, entries[i].0)),
        forall|p: Seq<char>| #[trigger] response_files(outbox, entries).contains(p) ==> exists|i: int|
            0 <= i < entries.len() && (#[trigger] entries[i]).1 && has_json_extension(entries[i].0)
                && p == outbox_path(outbox, entries[i].0),
    decreases entries.len(),
{
    if entries.len() > 0 {
        let init = entries.drop_last();
        let e = entries.last();
        assert forall|i: int, j: int| 0 <= i < j < init.len() implies (#[trigger] init[i]).0 != (#[trigger] init[j]).0 by {
            assert(init[i] == entries[i]);
            assert(init[j] == entries[j]);
        }
        lemma_each_response_file_once(outbox, init);
        let rest = response_files(outbox, init);
        let all = response_files(outbox, entries);
        assert forall|p: Seq<char>| #[trigger] all.contains(p) implies exists|i: int|
            0 <= i < entries.len() && (#[trigger] entries[i]).1 && has_json_extension(entries[i].0)
                && p == outbox_path(outbox, entries[i].0) by {
            if rest.contains(p) {
                let i = choose|i: int|
                    0 <= i < init.len() && (#[trigger] init[i]).1 && has_json_extension(init[i].0)
                        && p == outbox_path(outbox, init[i].0);
                assert(entries[i] == init[i]);
            } else {
                assert(e.1 && has_json_extension(e.0));
                let k = choose|k: int| 0 <= k < all.len() && all[k] == p;
                assert(k == rest.len());
                assert(entries[entries.len() - 1] == e);
            }
        }
        if e.1 && has_json_extension(e.0) {
            assert(!rest.contains(outbox_path(outbox, e.0))) by {
                if rest.contains(outbox_path(outbox, e.0)) {
                    let i = choose|i: int|
                        0 <= i < init.len() && (#[trigger] init[i]).1 && has_json_extension(init[i].0)
                            && outbox_path(outbox, e.0) == outbox_path(outbox, init[i].0);
                    lemma_outbox_path_injective(outbox, e.0, init[i].0);
                    assert(entries[i] == init[i]);
                    assert(entries[entries.len() - 1] == e);
                }
            }
            assert(all == rest.push(outbox_path(outbox, e.0)));
            assert forall|a: int, b: int| 0 <= a < all.len() && 0 <= b < all.len() && a != b implies all[a] != all[b] by {
                if a < rest.len() && b < rest.len() {
                } else if a == rest.len() {
                    assert(rest.contains(all[b]) ==> all[a] != all[b]);
                    assert(all[b] == rest[b]);
                } else {
                    assert(all[a] == rest[a]);
                }
            }
        }
        assert forall|i: int| 0 <= i < entries.len() && (#[trigger] entries[i]).1 && has_json_extension(entries[i].0)
            implies all.contains(outbox_path(outbox, entries[i].0)) by {
            if i < init.len() {
                assert(init[i] == entries[i]);
                let k = choose|k: int| 0 <= k < rest.len() && rest[k] == outbox_path(outbox, init[i].0);
                assert(all[k] == rest[k]);
            } else {
                assert(all[rest.len() as int] == outbox_path(outbox, e.0));
            }
        }
    }
}

} // verus!

verus! {

/// A slow handle (which never runs a child) is never spawned, and starting it
/// always flushes its backlog: a non-empty backlog is written to its request
/// file and the backlog is emptied.
pub proof fn lemma_slow_module_flushes(m: ModuleView, p: StartPlan)
    requires
        m.slow,
        !m.running,
        start_plan(m, p),
    ensures
        !p.spawn,
        !started(m).running,
        started(m).backlog.len() == 0,
        m.backlog.len() > 0 ==> (p.file matches Some(f) && f.path@ == request_file_path(m.inbox, m.backlog)
            && f.contents@ == request_file_contents(m.backlog)),
{
}

/// Sending a batch and then the same batch with other timestamps writes no
/// second request file: the first send writes the batch's file, and whenever
/// the second batch is flushed (at once for a slow handle, at the next start
/// after the child exits otherwise) its file has the same path.
pub proof fn lemma_resend_same_file(
    m: ModuleView,
    a: Seq<RequestView>,
    b: Seq<RequestView>,
    p1: StartPlan,
    p2: StartPlan,
    p3: StartPlan,
)
    requires
        !m.running,
        m.backlog.len() == 0,
        a.len() > 0,
        a.len() == b.len(),
        forall|i: int| 0 <= i < a.len() ==> (#[trigger] a[i]).without_timestamp() == b[i].without_timestamp(),
        start_plan(queued(m, a), p1),
        start_plan(queued(sent(m, a), b), p2),
        start_plan(ModuleView { running: false, ..sent(sent(m, a), b) }, p3),
    ensures
        p1.file matches Some(f) && f.path@ == request_file_path(m.inbox, a),
        p2.file matches Some(f) ==> f.path@ == request_file_path(m.inbox, a),
        m.slow ==> p2.file is Some,
        !m.slow ==> p2.file is None && (p3.file matches Some(f) && f.path@ == request_file_path(
            m.inbox,
            a,
        )),
{
    lemma_dedupe_modulo_timestamps(m.inbox, a, b);
    assert(queued(m, a).backlog =~= a);
    if m.slow {
        assert(queued(sent(m, a), b).backlog =~= b);
    } else {
        assert(sent(sent(m, a), b).backlog =~= b);
    }
}

} // verus!
