//! The translation orchestrator: per-page task construction under the
//! Chain / Batch execution policies, the cancellation-handle registry, and
//! the page state machine around a translation run.
//!
//! Every function here is a decision: it changes the session state and
//! describes, as plain data, the backend calls the surrounding driver must
//! make.  The driver performs the calls and feeds results back through
//! [`TranslationModel::update_content`] and
//! [`TranslationModel::evaluate_page`].

use crate::page::{Activity, Page};
use crate::session::{ChatMessage, Role, Server, Settings, SYSTEM_PROMPT};
use vstd::prelude::*;

verus! {

/// The default number of concurrent calls in one batch group.
pub const BATCH_SIZE: usize = 6;

/// The execution policy for one page's translation-unit tasks: strictly
/// sequential, or concurrent groups of the given size run one after the
/// other.
#[derive(Debug, Clone, Copy, PartialEq, Eq, Structural)]
pub enum Method {
    Chain,
    Batch(usize),
}

impl Default for Method {
    fn default() -> (r: Self)
        ensures
            r == Method::Chain,
    {
        Method::Chain
    }
}

/// The concatenation of all groups, in order.
pub open spec fn flatten_groups<T>(gs: Seq<Seq<T>>) -> Seq<T>
    decreases gs.len(),
{
    if gs.len() == 0 {
        Seq::empty()
    } else {
        gs[0] + flatten_groups(gs.drop_first())
    }
}

/// Appending one more group extends the flattening on the right.
pub proof fn lemma_flatten_groups_push<T>(gs: Seq<Seq<T>>, x: Seq<T>)
    ensures
        flatten_groups(gs.push(x)) == flatten_groups(gs) + x,
    decreases gs.len(),
{
    if gs.len() == 0 {
        assert(gs =~= Seq::<Seq<T>>::empty());
        assert(gs.push(x).drop_first() =~= Seq::<Seq<T>>::empty());
        assert(flatten_groups(gs.push(x)) == x + flatten_groups(Seq::<Seq<T>>::empty()));
        assert(flatten_groups(gs.push(x)) =~= flatten_groups(gs) + x);
    } else {
        assert(gs.push(x).drop_first() =~= gs.drop_first().push(x));
        lemma_flatten_groups_push(gs.drop_first(), x);
        assert(gs.push(x)[0] == gs[0]);
        assert(gs[0] + (flatten_groups(gs.drop_first()) + x) =~= (gs[0] + flatten_groups(
            gs.drop_first(),
        )) + x);
    }
}

impl Method {
    /// A batch policy must make progress: its group size is positive.
    pub open spec fn valid(self) -> bool {
        match self {
            Method::Chain => true,
            Method::Batch(k) => k > 0,
        }
    }

    /// The group size the policy dispatches at once.
    pub open spec fn group_size(self) -> int {
        match self {
            Method::Chain => 1,
            Method::Batch(k) => k as int,
        }
    }

    /// Composes the tasks into dispatch groups: singleton groups under
    /// `Chain`, runs of the batch size under `Batch` (the last run may be
    /// shorter).  Concatenating the groups in order gives back the tasks
    /// exactly; groups are never empty, and only the last may be short.
    pub fn join_tasks<T>(&self, tasks: Vec<T>) -> (r: Vec<Vec<T>>)
        requires
            self.valid(),
        ensures
            flatten_groups(r@.map_values(|g: Vec<T>| g@)) == tasks@,
            forall|g: int| 0 <= g < r@.len() ==> 0 < #[trigger] r@[g]@.len() <= self.group_size(),
            forall|g: int| 0 <= g < r@.len() - 1 ==> #[trigger] r@[g]@.len() == self.group_size(),
            tasks@.len() == 0 ==> r@.len() == 0,
            tasks@.len() > 0 ==> r@.len() > 0,
    {
        let k: usize = match self {
            Method::Chain => 1,
            Method::Batch(k) => *k,
        };
        let ghost orig = tasks@;
        let mut rest = tasks;
        let mut out: Vec<Vec<T>> = Vec::new();
        while rest.len() > 0
            invariant
                k as int == self.group_size(),
                k > 0,
                flatten_groups(out@.map_values(|g: Vec<T>| g@)) + rest@ == orig,
                forall|g: int| 0 <= g < out@.len() ==> 0 < #[trigger] out@[g]@.len() <= k,
                forall|g: int|
                    0 <= g < out@.len() && rest@.len() > 0 ==> #[trigger] out@[g]@.len() == k,
                forall|g: int| 0 <= g < out@.len() - 1 ==> #[trigger] out@[g]@.len() == k,
            decreases rest@.len(),
        {
            let ghost rest0 = rest@;
            let mut group: Vec<T> = Vec::new();
            let mut j: usize = 0;
            while j < k && rest.len() > 0
                invariant
                    j <= k,
                    group@.len() == j,
                    group@ + rest@ == rest0,
                decreases k - j,
            {
                let t = rest.remove(0);
                group.push(t);
                j = j + 1;
                proof {
                    assert(group@ + rest@ =~= rest0);
                }
            }
            proof {
                let gviews = out@.map_values(|g: Vec<T>| g@);
                lemma_flatten_groups_push(gviews, group@);
                assert(out@.push(group).map_values(|g: Vec<T>| g@) =~= gviews.push(group@));
                assert(flatten_groups(gviews.push(group@)) + rest@ =~= orig);
            }
            out.push(group);
        }
        proof {
            assert(flatten_groups(out@.map_values(|g: Vec<T>| g@)) =~= orig);
        }
        out
    }
}

/// One backend call the driver must make: translate `prompt` and stream the
/// chunks into unit `part` of page `page`, under cancellation handle
/// `handle`.
#[derive(Debug, Clone)]
pub struct UnitCall {
    pub page: usize,
    pub part: usize,
    pub prompt: String,
    pub handle: u64,
}

/// A bookkeeping step chained after a page's unit calls, guarded by its own
/// cancellation handle.
#[derive(Debug, Clone, Copy, PartialEq, Eq, Structural)]
pub struct FollowUp {
    pub page: usize,
    pub handle: u64,
}

/// The work one translate operation hands to the driver: the unit calls in
/// their dispatch groups (members of a group run concurrently, groups run
/// in order), the page evaluation step, the advance to the next page, and
/// whether the session is wound down afterwards.
#[derive(Debug)]
pub struct TranslatePlan {
    pub model: String,
    pub settings: Settings,
    pub groups: Vec<Vec<UnitCall>>,
    pub evaluate: Option<FollowUp>,
    pub advance: Option<FollowUp>,
    pub abort_after: bool,
}

/// A translate operation that could not start: no backend connection, or no
/// model selected.
#[derive(Debug, Clone, Copy, PartialEq, Eq, Structural)]
pub enum TransError {
    NotConnected,
    NoModel,
}

impl TransError {
    /// The user-visible description of the error.
    pub fn message(&self) -> (r: String)
        ensures
            *self is NotConnected ==> r@ == "Not connected to a server"@,
            *self is NoModel ==> r@ == "No model selected"@,
    {
        match self {
            TransError::NotConnected => String::from_str("Not connected to a server"),
            TransError::NoModel => String::from_str("No model selected"),
        }
    }
}

/// What a translate request resolves to: a plan to dispatch, or — when the
/// page index has run past the document — the finished session, named so
/// the driver can raise its save prompt.
#[derive(Debug)]
pub enum TranslateStep {
    Finished { file_name: String },
    Dispatch(TranslatePlan),
}

/// The connection half of a translation session: the backend server with
/// its history, the model list, the cancellation-handle registry and the
/// generation settings.  Handles are plain identifiers; the registry holds
/// exactly the handles of the calls still in flight.
#[derive(Debug)]
pub struct ServerState {
    pub server: Server,
    pub models: Vec<String>,
    pub current_model: Option<String>,
    pub api_key: String,
    pub handles: Vec<u64>,
    pub next_handle: u64,
    pub settings: Settings,
}

impl ServerState {
    /// Registry well-formedness: every live handle was issued before the
    /// next one to be issued, so fresh handles never collide.
    pub open spec fn wf(self) -> bool {
        forall|i: int| 0 <= i < self.handles@.len() ==> self.handles@[i] < self.next_handle
    }

    /// A fresh, disconnected session.
    pub fn new() -> (r: ServerState)
        ensures
            r.wf(),
            r.server is Disconnected,
            r.models@.len() == 0,
            r.current_model is None,
            r.api_key@.len() == 0,
            r.handles@.len() == 0,
            r.next_handle == 0,
            r.settings == (Settings { think: true, pause: 0u64 }),
    {
        ServerState {
            server: Server::Disconnected,
            models: Vec::new(),
            current_model: None,
            api_key: String::new(),
            handles: Vec::new(),
            next_handle: 0,
            settings: Settings { think: true, pause: 0 },
        }
    }

    /// A live backend connection exists.
    pub fn connected(&self) -> (r: bool)
        ensures
            r == self.server.is_connected(),
    {
        self.server.connected()
    }

    /// Installs the model list that came back from the backend and selects
    /// its first entry, if any.
    pub fn set_models(&mut self, models: Vec<String>)
        ensures
            final(self).models == models,
            models@.len() == 0 ==> final(self).current_model is None,
            models@.len() > 0 ==> final(self).current_model == Some(models@[0]),
            final(self).server == old(self).server,
            final(self).handles == old(self).handles,
            final(self).next_handle == old(self).next_handle,
            final(self).settings == old(self).settings,
            final(self).api_key == old(self).api_key,
            old(self).wf() ==> final(self).wf(),
    {
        if models.len() > 0 {
            self.current_model = Some(models[0].clone());
        } else {
            self.current_model = None;
        }
        self.models = models;
    }

    /// Selects a model by name.
    pub fn set_current_model(&mut self, model: String)
        ensures
            *final(self) == (ServerState { current_model: Some(model), ..*old(self) }),
    {
        self.current_model = Some(model);
    }

    /// Records the API key typed so far.
    pub fn edit_api_key(&mut self, key: String)
        ensures
            *final(self) == (ServerState { api_key: key, ..*old(self) }),
    {
        self.api_key = key;
    }

    /// Turns the reasoning-trace request on or off.
    pub fn set_thinking(&mut self, toggled: bool)
        ensures
            *final(self) == (ServerState {
                settings: Settings { think: toggled, ..old(self).settings },
                ..*old(self)
            }),
    {
        self.settings.think = toggled;
    }

    /// Sets the pause taken after each finished call.
    pub fn set_pause(&mut self, pause: u64)
        ensures
            *final(self) == (ServerState {
                settings: Settings { pause, ..old(self).settings },
                ..*old(self)
            }),
    {
        self.settings.pause = pause;
    }

    /// Installs a fresh session for the requested backend; the driver then
    /// asks the backend for its model list.
    pub fn connect(&mut self, connection: &crate::session::Connection)
        ensures
            old(self).wf() ==> final(self).wf(),
            *connection is Ollama ==> final(self).server is Ollama
                && final(self).server.spec_history().len() == 1,
            *connection is Claude ==> final(self).server is Claude
                && final(self).server.spec_history().len() == 0,
            final(self).models == old(self).models,
            final(self).current_model == old(self).current_model,
            final(self).handles == old(self).handles,
            final(self).next_handle == old(self).next_handle,
            final(self).settings == old(self).settings,
            final(self).api_key == old(self).api_key,
    {
        match connection {
            crate::session::Connection::Ollama => {
                self.server = Server::ollama();
            },
            crate::session::Connection::Claude(_key) => {
                self.server = Server::claude();
            },
        }
    }
}

/// The backend session state after an abort: same connection, history reset
/// to its initial contents.
pub open spec fn aborted_server(s0: Server, s1: Server) -> bool {
    &&& s1 is Disconnected == s0 is Disconnected
    &&& s1 is Ollama == s0 is Ollama
    &&& s1 is Claude == s0 is Claude
    &&& (s0 is Ollama ==> s1.spec_history().len() == 1 && s1.spec_history()[0].role
        == Role::System && s1.spec_history()[0].content@ == SYSTEM_PROMPT@)
    &&& (s0 is Claude ==> s1.spec_history().len() == 0)
}

/// The page set after an abort: every `Active` page is reset to
/// `Incomplete` and nothing else changes.
pub open spec fn pages_reset(ps0: Seq<Page>, ps1: Seq<Page>) -> bool {
    &&& ps1.len() == ps0.len()
    &&& forall|i: int|
        0 <= i < ps0.len() ==> {
            let p0 = #[trigger] ps0[i];
            let p1 = ps1[i];
            &&& p1.path == p0.path
            &&& p1.sections == p0.sections
            &&& p1.text == p0.text
            &&& p1.activity == (if p0.activity is Active {
                Activity::Incomplete
            } else {
                p0.activity
            })
        }
}

/// The handles issued by one operation: `count` consecutive identifiers
/// starting at `base`.
pub open spec fn fresh_handles(base: u64, count: int) -> Seq<u64> {
    Seq::new(count as nat, |i: int| (base + i) as u64)
}

/// The connection half is untouched but for its handle registry.
pub open spec fn session_preserved(s0: ServerState, s1: ServerState) -> bool {
    &&& s1.server == s0.server
    &&& s1.models == s0.models
    &&& s1.current_model == s0.current_model
    &&& s1.api_key == s0.api_key
    &&& s1.settings == s0.settings
}

/// The registry grew by exactly `count` fresh handles.
pub open spec fn handles_extended(s0: ServerState, s1: ServerState, count: int) -> bool {
    &&& s1.handles@ == s0.handles@ + fresh_handles(s0.next_handle, count)
    &&& s1.next_handle == s0.next_handle + count
}

/// The document-level fields of the model are untouched.
pub open spec fn model_frame(m0: TranslationModel, m1: TranslationModel) -> bool {
    &&& m1.file_name == m0.file_name
    &&& m1.current_page == m0.current_page
    &&& m1.method == m0.method
}

/// The page as a fresh translation run leaves it: text slots emptied, one
/// per source unit, and the page marked `Active`.
pub open spec fn page_started(p0: Page, p1: Page) -> bool {
    &&& p1.path == p0.path
    &&& p1.sections == p0.sections
    &&& p1.text@.len() == p0.text@.len()
    &&& forall|j: int| 0 <= j < p1.text@.len() ==> p1.text@[j]@.len() == 0
    &&& p1.activity == Activity::Active
}

/// Every page but `page` is untouched.
pub open spec fn pages_updated_at(ps0: Seq<Page>, ps1: Seq<Page>, page: int) -> bool {
    &&& ps1.len() == ps0.len()
    &&& forall|i: int| 0 <= i < ps0.len() && i != page ==> ps1[i] == ps0[i]
}

/// One backend call per source unit of the page, in order: unit `i`
/// translates section `i` under handle `base + i`.
pub open spec fn unit_calls(sections: Seq<String>, page: usize, base: u64) -> Seq<UnitCall> {
    Seq::new(
        sections.len(),
        |i: int|
            UnitCall {
                page,
                part: i as usize,
                prompt: sections[i],
                handle: (base + i) as u64,
            },
    )
}

/// The dispatch groups have the shape the policy asks for: never empty,
/// never larger than the policy's group size, and full except possibly the
/// last.
pub open spec fn group_shape(m: Method, gs: Seq<Vec<UnitCall>>) -> bool {
    &&& forall|g: int| 0 <= g < gs.len() ==> 0 < #[trigger] gs[g]@.len() <= m.group_size()
    &&& forall|g: int| 0 <= g < gs.len() - 1 ==> #[trigger] gs[g]@.len() == m.group_size()
}

/// The whole session after an abort: the handle registry drained, every
/// `Active` page reset to `Incomplete`, the backend history reset, and
/// everything else untouched.  The handle counter is not reset, so handles
/// issued before the abort are never re-issued.
pub open spec fn aborted_state(m0: TranslationModel, m1: TranslationModel) -> bool {
    &&& model_frame(m0, m1)
    &&& pages_reset(m0.pages@, m1.pages@)
    &&& m1.server_state.handles@.len() == 0
    &&& m1.server_state.next_handle == m0.server_state.next_handle
    &&& aborted_server(m0.server_state.server, m1.server_state.server)
    &&& m1.server_state.models == m0.server_state.models
    &&& m1.server_state.current_model == m0.server_state.current_model
    &&& m1.server_state.api_key == m0.server_state.api_key
    &&& m1.server_state.settings == m0.server_state.settings
}

/// One tab's translation session: the backend connection, the document's
/// pages, and the execution policy.
#[derive(Debug)]
pub struct TranslationModel {
    pub server_state: ServerState,
    pub file_name: String,
    pub current_page: Option<usize>,
    pub pages: Vec<Page>,
    pub method: Method,
}

impl TranslationModel {
    /// Session well-formedness: a valid execution policy, a well-formed
    /// handle registry, and every page holding one text slot per unit.
    pub open spec fn wf(self) -> bool {
        &&& self.method.valid()
        &&& self.server_state.wf()
        &&& forall|i: int| 0 <= i < self.pages@.len() ==> (#[trigger] self.pages@[i]).wf()
    }

    /// A fresh, empty session.
    pub fn new() -> (r: TranslationModel)
        ensures
            r.wf(),
            r.pages@.len() == 0,
            r.current_page is None,
            r.file_name@.len() == 0,
            r.method == Method::Chain,
            r.server_state.server is Disconnected,
    {
        TranslationModel {
            server_state: ServerState::new(),
            file_name: String::new(),
            current_page: None,
            pages: Vec::new(),
            method: Method::Chain,
        }
    }

    /// Installs a freshly opened document: its name and its pages, starting
    /// at the first page.
    pub fn set_epub(&mut self, file_name: String, pages: Vec<Page>)
        ensures
            final(self).file_name == file_name,
            final(self).pages == pages,
            final(self).current_page == Some(0usize),
            final(self).server_state == old(self).server_state,
            final(self).method == old(self).method,
    {
        self.current_page = Some(0);
        self.file_name = file_name;
        self.pages = pages;
    }

    /// Selects the page shown to the user.
    pub fn set_current_page(&mut self, page: usize)
        ensures
            final(self).current_page == Some(page),
            final(self).pages == old(self).pages,
            final(self).file_name == old(self).file_name,
            final(self).method == old(self).method,
            final(self).server_state == old(self).server_state,
    {
        self.current_page = Some(page);
    }

    /// Selects the execution policy.
    pub fn set_method(&mut self, method: Method)
        requires
            method.valid(),
        ensures
            final(self).method == method,
            final(self).pages == old(self).pages,
            final(self).file_name == old(self).file_name,
            final(self).current_page == old(self).current_page,
            final(self).server_state == old(self).server_state,
    {
        self.method = method;
    }

    /// The accumulated text of the page on display, all units run together.
    pub fn current_content(&self) -> (r: Option<String>)
        ensures
            match r {
                Some(s) => {
                    &&& self.current_page is Some
                    &&& self.current_page->0 < self.pages@.len()
                    &&& s@ == crate::partition::joined_with(
                        crate::partition::views_of(
                            self.pages@[self.current_page->0 as int].text@,
                        ),
                        Seq::<char>::empty(),
                        self.pages@[self.current_page->0 as int].text@.len() as int,
                    )
                },
                None => self.current_page is None || self.current_page->0 >= self.pages@.len(),
            },
    {
        let page = match &self.current_page {
            Some(p) => *p,
            None => {
                return None;
            },
        };
        if page >= self.pages.len() {
            return None;
        }
        let joined = crate::partition::join_strings(&self.pages[page].text, "");
        proof {
            reveal_strlit("");
            assert(""@ =~= Seq::<char>::empty());
        }
        Some(joined)
    }

    /// True when the registry still recognises `handle`.
    fn handle_live(&self, handle: u64) -> (r: bool)
        ensures
            r == self.server_state.handles@.contains(handle),
    {
        let mut i: usize = 0;
        while i < self.server_state.handles.len()
            invariant
                i <= self.server_state.handles@.len(),
                forall|j: int| 0 <= j < i ==> self.server_state.handles@[j] != handle,
            decreases self.server_state.handles@.len() - i,
        {
            if self.server_state.handles[i] == handle {
                proof {
                    assert(self.server_state.handles@.contains(handle));
                }
                return true;
            }
            i = i + 1;
        }
        proof {
            assert(!self.server_state.handles@.contains(handle));
        }
        false
    }

    /// Applies one streamed chunk to unit `part` of page `page` — but only
    /// when the carrying call's handle is still live in the registry.  A
    /// chunk from a call whose handle has been drained (by an abort)
    /// changes nothing: this is the second half of the cancellation
    /// guarantee.
    pub fn update_content(&mut self, handle: u64, page: usize, part: usize, chunk: &str) -> (applied:
        bool)
        ensures
            old(self).wf() ==> final(self).wf(),
            applied <==> (old(self).server_state.handles@.contains(handle) && page < old(self).pages@.len() && part < old(self).pages@[page as int].text@.len()),
            !applied ==> *final(self) == *old(self),
            applied ==> ({
                let p0 = old(self).pages@[page as int];
                let p1 = final(self).pages@[page as int];
                &&& pages_updated_at(old(self).pages@, final(self).pages@, page as int)
                &&& p1.path == p0.path
                &&& p1.sections == p0.sections
                &&& p1.activity == p0.activity
                &&& p1.text@.len() == p0.text@.len()
                &&& p1.text@[part as int]@ == p0.text@[part as int]@ + chunk@
                &&& forall|j: int|
                    0 <= j < p0.text@.len() && j != part ==> p1.text@[j] == p0.text@[j]
                &&& final(self).server_state == old(self).server_state
                &&& model_frame(*old(self), *final(self))
            }),
    {
        if !self.handle_live(handle) {
            return false;
        }
        if page >= self.pages.len() {
            return false;
        }
        if part >= self.pages[page].text.len() {
            return false;
        }
        self.pages[page].update_content(part, chunk);
        true
    }

    /// Re-runs the completion heuristic over page `page` and records the
    /// verdict in its activity; out-of-range pages are left alone.
    pub fn evaluate_page(&mut self, page: usize)
        ensures
            final(self).server_state == old(self).server_state,
            model_frame(*old(self), *final(self)),
            page >= old(self).pages@.len() ==> final(self).pages == old(self).pages,
            page < old(self).pages@.len() ==> ({
                let p0 = old(self).pages@[page as int];
                let p1 = final(self).pages@[page as int];
                &&& pages_updated_at(old(self).pages@, final(self).pages@, page as int)
                &&& p1.path == p0.path
                &&& p1.sections == p0.sections
                &&& p1.text == p0.text
                &&& p1.activity == crate::page::classification(
                    crate::partition::views_of(p0.text@),
                )
            }),
    {
        if page >= self.pages.len() {
            return ;
        }
        self.pages[page].evaluate();
    }

    /// Drains the cancellation-handle registry, resets every `Active` page
    /// to `Incomplete`, and clears the backend-side conversation history.
    /// In-flight calls carry handles that are no longer recognised, so no
    /// further chunk of theirs can change any page.
    pub fn abort(&mut self)
        ensures
            aborted_state(*old(self), *final(self)),
            old(self).wf() ==> final(self).wf(),
    {
        self.server_state.handles.clear();
        self.server_state.server.clear_history();
        let ghost ss = self.server_state;
        let mut i: usize = 0;
        while i < self.pages.len()
            invariant
                i <= self.pages@.len(),
                self.pages@.len() == old(self).pages@.len(),
                self.server_state == ss,
                ss.handles@.len() == 0,
                ss.next_handle == old(self).server_state.next_handle,
                aborted_server(old(self).server_state.server, ss.server),
                ss.models == old(self).server_state.models,
                ss.current_model == old(self).server_state.current_model,
                ss.api_key == old(self).server_state.api_key,
                ss.settings == old(self).server_state.settings,
                self.file_name == old(self).file_name,
                self.current_page == old(self).current_page,
                self.method == old(self).method,
                forall|k: int|
                    0 <= k < i ==> {
                        let p0 = #[trigger] old(self).pages@[k];
                        let p1 = self.pages@[k];
                        &&& p1.path == p0.path
                        &&& p1.sections == p0.sections
                        &&& p1.text == p0.text
                        &&& p1.activity == (if p0.activity is Active {
                            Activity::Incomplete
                        } else {
                            p0.activity
                        })
                    },
                forall|k: int|
                    i <= k < self.pages@.len() ==> self.pages@[k] == old(self).pages@[k],
            decreases self.pages@.len() - i,
        {
            let active = matches!(self.pages[i].activity, Activity::Active);
            if active {
                self.pages[i].activity = Activity::Incomplete;
            }
            i = i + 1;
        }
        proof {
            if old(self).wf() {
                assert forall|i: int|
                    0 <= i < self.pages@.len() implies (#[trigger] self.pages@[i]).wf() by {
                    assert(old(self).pages@[i].wf());
                }
            }
        }
    }
}

/// What a successful dispatch looks like: the plan carries the selected
/// model and settings, one call per source unit of the page (in its policy
/// groups, with consecutive fresh handles from the registry counter), an
/// evaluation step under the next handle, and — when the run advances
/// through the document — a translate-next step under the handle after
/// that.  The page itself is cleared and `Active`, and the registry has
/// grown by exactly the handles the plan names.
pub open spec fn dispatch_ok(
    m0: TranslationModel,
    m1: TranslationModel,
    page: usize,
    plan: TranslatePlan,
    with_advance: bool,
) -> bool {
    let base = m0.server_state.next_handle;
    let secs = m0.pages@[page as int].sections@;
    let n = secs.len() as int;
    &&& plan.model == m0.server_state.current_model->0
    &&& plan.settings == m0.server_state.settings
    &&& flatten_groups(plan.groups@.map_values(|g: Vec<UnitCall>| g@)) == unit_calls(
        secs,
        page,
        base,
    )
    &&& group_shape(m0.method, plan.groups@)
    &&& plan.evaluate == Some(FollowUp { page, handle: (base + n) as u64 })
    &&& (with_advance ==> plan.advance == Some(
        FollowUp { page: (page + 1) as usize, handle: (base + n + 1) as u64 },
    ))
    &&& (!with_advance ==> plan.advance is None)
    &&& plan.abort_after == !with_advance
    &&& model_frame(m0, m1)
    &&& pages_updated_at(m0.pages@, m1.pages@, page as int)
    &&& page_started(m0.pages@[page as int], m1.pages@[page as int])
    &&& session_preserved(m0.server_state, m1.server_state)
    &&& handles_extended(
        m0.server_state,
        m1.server_state,
        n + (if with_advance {
            2int
        } else {
            1int
        }),
    )
}

impl TranslationModel {
    /// Starts translating page `page` and every page after it.  Requires a
    /// connection and a selected model, else fails with the error to report
    /// and changes nothing.  A page index past the document means the run
    /// has finished: the session is aborted and the document's name is
    /// returned so the driver can offer to save.  Otherwise the page is
    /// cleared and marked `Active`, and the returned plan carries one
    /// backend call per unit (grouped by the execution policy), the
    /// evaluation step, and the advance to the next page.
    pub fn translate(&mut self, page: usize) -> (r: Result<TranslateStep, TransError>)
        requires
            old(self).wf(),
            page < old(self).pages@.len() ==> old(self).server_state.next_handle + old(self).pages@[page as int].sections@.len() + 2 <= u64::MAX,
        ensures
            final(self).wf(),
            r is Err <==> (!old(self).server_state.server.is_connected() || old(self).server_state.current_model is None),
            (r matches Err(e) && e is NotConnected) <==> !old(self).server_state.server.is_connected(),
            (r matches Err(e) && e is NoModel) <==> (old(self).server_state.server.is_connected()
                && old(self).server_state.current_model is None),
            r is Err ==> *final(self) == *old(self),
            (old(self).server_state.server.is_connected() && old(self).server_state.current_model is Some && page >= old(self).pages@.len()) ==> (r matches
            Ok(TranslateStep::Finished { file_name }) && file_name == old(self).file_name
                && aborted_state(*old(self), *final(self))),
            (old(self).server_state.server.is_connected() && old(self).server_state.current_model is Some && page < old(self).pages@.len()) ==> (r matches
            Ok(TranslateStep::Dispatch(plan)) && dispatch_ok(
                *old(self),
                *final(self),
                page,
                plan,
                true,
            )),
    {
        if !self.server_state.server.connected() {
            return Err(TransError::NotConnected);
        }
        let model = match &self.server_state.current_model {
            Some(m) => m.clone(),
            None => {
                return Err(TransError::NoModel);
            },
        };
        if page >= self.pages.len() {
            let file_name = self.file_name.clone();
            self.abort();
            return Ok(TranslateStep::Finished { file_name });
        }
        let plan = self.start_page(page, model, true);
        Ok(TranslateStep::Dispatch(plan))
    }

    /// Starts translating page `page` alone: as [`TranslationModel::translate`],
    /// but the plan carries no advance step and winds the session down when
    /// the page is done.  A page index past the document only aborts.
    pub fn translate_page(&mut self, page: usize) -> (r: Result<Option<TranslatePlan>, TransError>)
        requires
            old(self).wf(),
            page < old(self).pages@.len() ==> old(self).server_state.next_handle + old(self).pages@[page as int].sections@.len() + 2 <= u64::MAX,
        ensures
            final(self).wf(),
            r is Err <==> (!old(self).server_state.server.is_connected() || old(self).server_state.current_model is None),
            (r matches Err(e) && e is NotConnected) <==> !old(self).server_state.server.is_connected(),
            (r matches Err(e) && e is NoModel) <==> (old(self).server_state.server.is_connected()
                && old(self).server_state.current_model is None),
            r is Err ==> *final(self) == *old(self),
            (old(self).server_state.server.is_connected() && old(self).server_state.current_model is Some && page >= old(self).pages@.len()) ==> (r matches
            Ok(p) && p is None && aborted_state(*old(self), *final(self))),
            (old(self).server_state.server.is_connected() && old(self).server_state.current_model is Some && page < old(self).pages@.len()) ==> (r matches
            Ok(p) && p matches Some(plan) && dispatch_ok(
                *old(self),
                *final(self),
                page,
                plan,
                false,
            )),
    {
        if !self.server_state.server.connected() {
            return Err(TransError::NotConnected);
        }
        let model = match &self.server_state.current_model {
            Some(m) => m.clone(),
            None => {
                return Err(TransError::NoModel);
            },
        };
        if page >= self.pages.len() {
            self.abort();
            return Ok(None);
        }
        let plan = self.start_page(page, model, false);
        Ok(Some(plan))
    }

    /// Clears page `page`, marks it `Active`, issues the handles, and
    /// builds the dispatch plan.
    fn start_page(&mut self, page: usize, model: String, with_advance: bool) -> (plan:
        TranslatePlan)
        requires
            old(self).wf(),
            old(self).server_state.server.is_connected(),
            old(self).server_state.current_model is Some,
            model == old(self).server_state.current_model->0,
            page < old(self).pages@.len(),
            old(self).server_state.next_handle + old(self).pages@[page as int].sections@.len() + 2
                <= u64::MAX,
        ensures
            final(self).wf(),
            dispatch_ok(*old(self), *final(self), page, plan, with_advance),
    {
        let settings = self.server_state.settings;
        let base = self.server_state.next_handle;
        self.pages[page].clear_content();
        self.pages[page].activity = Activity::Active;
        let n = self.pages[page].sections.len();
        let ghost secs = old(self).pages@[page as int].sections@;
        let mut calls: Vec<UnitCall> = Vec::new();
        let mut i: usize = 0;
        while i < n
            invariant
                old(self).wf(),
                page < self.pages@.len(),
                n == self.pages@[page as int].sections@.len(),
                secs == self.pages@[page as int].sections@,
                base == old(self).server_state.next_handle,
                base + n + 2 <= u64::MAX,
                i <= n,
                pages_updated_at(old(self).pages@, self.pages@, page as int),
                page_started(old(self).pages@[page as int], self.pages@[page as int]),
                model_frame(*old(self), *self),
                session_preserved(old(self).server_state, self.server_state),
                self.server_state.next_handle == base,
                self.server_state.handles@ == old(self).server_state.handles@ + fresh_handles(
                    base,
                    i as int,
                ),
                calls@.len() == i,
                forall|j: int|
                    0 <= j < i ==> calls@[j] == unit_calls(secs, page, base)[j],
            decreases n - i,
        {
            let prompt = self.pages[page].sections[i].clone();
            let handle = base + (i as u64);
            calls.push(UnitCall { page, part: i, prompt, handle });
            self.server_state.handles.push(handle);
            i = i + 1;
            proof {
                assert(old(self).server_state.handles@ + fresh_handles(base, i - 1).push(
                    (base + i - 1) as u64,
                ) =~= old(self).server_state.handles@ + fresh_handles(base, i as int));
            }
        }
        proof {
            assert(calls@ =~= unit_calls(secs, page, base));
        }
        let eval_handle = base + (n as u64);
        self.server_state.handles.push(eval_handle);
        proof {
            assert(old(self).server_state.handles@ + fresh_handles(base, n as int).push(
                (base + n) as u64,
            ) =~= old(self).server_state.handles@ + fresh_handles(base, n + 1));
        }
        let evaluate = Some(FollowUp { page, handle: eval_handle });
        let advance: Option<FollowUp>;
        let issued: u64;
        if with_advance {
            let next_id = base + (n as u64) + 1;
            self.server_state.handles.push(next_id);
            proof {
                assert(old(self).server_state.handles@ + fresh_handles(base, n + 1).push(
                    (base + n + 1) as u64,
                ) =~= old(self).server_state.handles@ + fresh_handles(base, n + 2));
            }
            proof {
                assert(page < self.pages.len());
            }
            advance = Some(FollowUp { page: page + 1, handle: next_id });
            issued = (n as u64) + 2;
        } else {
            advance = None;
            issued = (n as u64) + 1;
        }
        self.server_state.next_handle = base + issued;
        let groups = self.method.join_tasks(calls);
        proof {
            assert forall|k: int|
                0 <= k < self.server_state.handles@.len() implies self.server_state.handles@[k]
                < self.server_state.next_handle by {
                if k < old(self).server_state.handles@.len() {
                    assert(old(self).server_state.handles@[k]
                        < old(self).server_state.next_handle);
                }
            }
            assert forall|k: int|
                0 <= k < self.pages@.len() implies (#[trigger] self.pages@[k]).wf() by {
                assert(old(self).pages@[k].wf());
            }
        }
        TranslatePlan { model, settings, groups, evaluate, advance, abort_after: !with_advance }
    }

    /// Re-translates one unit of one page: clears that unit's text alone
    /// and dispatches a single call for it, winding the session down
    /// afterwards.  An out-of-range page aborts the session; an
    /// out-of-range unit changes nothing.
    pub fn translate_part(&mut self, page: usize, part: usize) -> (r: Result<
        Option<TranslatePlan>,
        TransError,
    >)
        requires
            old(self).wf(),
            old(self).server_state.next_handle + 1 <= u64::MAX,
        ensures
            final(self).wf(),
            r is Err <==> (!old(self).server_state.server.is_connected() || old(self).server_state.current_model is None),
            (r matches Err(e) && e is NotConnected) <==> !old(self).server_state.server.is_connected(),
            (r matches Err(e) && e is NoModel) <==> (old(self).server_state.server.is_connected()
                && old(self).server_state.current_model is None),
            r is Err ==> *final(self) == *old(self),
            (old(self).server_state.server.is_connected() && old(self).server_state.current_model is Some && page >= old(self).pages@.len()) ==> (r matches
            Ok(p) && p is None && aborted_state(*old(self), *final(self))),
            (old(self).server_state.server.is_connected() && old(self).server_state.current_model is Some && page < old(self).pages@.len() && part >= old(self).pages@[page as int].sections@.len()) ==> (r matches Ok(p) && p is None && *final(self) == *old(self)),
            (old(self).server_state.server.is_connected() && old(self).server_state.current_model is Some && page < old(self).pages@.len() && part < old(self).pages@[page as int].sections@.len()) ==> (r matches Ok(p) && p matches Some(plan)
                && ({
                let m0 = *old(self);
                let m1 = *final(self);
                let base = m0.server_state.next_handle;
                let p0 = m0.pages@[page as int];
                let p1 = m1.pages@[page as int];
                &&& plan.model == m0.server_state.current_model->0
                &&& plan.settings == m0.server_state.settings
                &&& plan.groups@.len() == 1
                &&& plan.groups@[0]@.len() == 1
                &&& plan.groups@[0]@[0] == (UnitCall {
                    page,
                    part,
                    prompt: p0.sections@[part as int],
                    handle: base,
                })
                &&& plan.evaluate is None
                &&& plan.advance is None
                &&& plan.abort_after == true
                &&& model_frame(m0, m1)
                &&& pages_updated_at(m0.pages@, m1.pages@, page as int)
                &&& p1.path == p0.path
                &&& p1.sections == p0.sections
                &&& p1.activity == p0.activity
                &&& p1.text@.len() == p0.text@.len()
                &&& p1.text@[part as int]@.len() == 0
                &&& (forall|j: int|
                    0 <= j < p0.text@.len() && j != part ==> p1.text@[j] == p0.text@[j])
                &&& session_preserved(m0.server_state, m1.server_state)
                &&& handles_extended(m0.server_state, m1.server_state, 1)
            })),
    {
        if !self.server_state.server.connected() {
            return Err(TransError::NotConnected);
        }
        let model = match &self.server_state.current_model {
            Some(m) => m.clone(),
            None => {
                return Err(TransError::NoModel);
            },
        };
        if page >= self.pages.len() {
            self.abort();
            return Ok(None);
        }
        if part >= self.pages[page].sections.len() {
            return Ok(None);
        }
        proof {
            assert(old(self).pages@[page as int].wf());
        }
        let settings = self.server_state.settings;
        let base = self.server_state.next_handle;
        self.pages[page].clear_part(part);
        let prompt = self.pages[page].sections[part].clone();
        self.server_state.handles.push(base);
        self.server_state.next_handle = base + 1;
        let mut group: Vec<UnitCall> = Vec::new();
        group.push(UnitCall { page, part, prompt, handle: base });
        let mut groups: Vec<Vec<UnitCall>> = Vec::new();
        groups.push(group);
        proof {
            assert(old(self).server_state.handles@.push(base) =~= old(self).server_state.handles@ + fresh_handles(base, 1));
            assert forall|k: int|
                0 <= k < self.server_state.handles@.len() implies self.server_state.handles@[k]
                < self.server_state.next_handle by {
                if k < old(self).server_state.handles@.len() {
                    assert(old(self).server_state.handles@[k]
                        < old(self).server_state.next_handle);
                }
            }
            assert forall|k: int|
                0 <= k < self.pages@.len() implies (#[trigger] self.pages@[k]).wf() by {
                assert(old(self).pages@[k].wf());
            }
        }
        Ok(
            Some(
                TranslatePlan {
                    model,
                    settings,
                    groups,
                    evaluate: None,
                    advance: None,
                    abort_after: true,
                },
            ),
        )
    }
}

/// A request a backend session reacts to.
#[derive(Debug, Clone)]
pub enum ServerAction {
    SelectModel(String),
    SetModels(Vec<String>),
    Connect(crate::session::Connection),
    EditApiKey(String),
    ThinkToggled(bool),
    SetPause(u64),
    Abort,
}

/// A request a translation session reacts to.
#[derive(Debug, Clone)]
pub enum TransAction {
    SetPage(usize),
    UpdateContent { content: String, page: usize, part: usize },
    PageComplete(usize),
    SavePages(String),
    SavePage(String, usize),
    OpenEpub,
    SetEpub(String, Vec<Page>),
    Translate(usize),
    TranslatePage(usize),
    TranslatePart(usize, usize),
    SaveTranslation(String),
    ServerAction(ServerAction),
    SetMethod(Method),
}

/// The indices of the pages worth saving, from `i` on: those classified
/// `Complete` that hold any text slots at all.
pub open spec fn complete_indices(pages: Seq<Page>, i: int) -> Seq<int>
    decreases pages.len() - i,
{
    if i < 0 || i >= pages.len() {
        Seq::empty()
    } else if pages[i].activity is Complete && pages[i].text.len() > 0 {
        seq![i] + complete_indices(pages, i + 1)
    } else {
        complete_indices(pages, i + 1)
    }
}

/// The markdown a saved page is written out as: its accumulated units
/// under their `<part>` headers, with the backend's reasoning-trace
/// regions stripped.
pub open spec fn saved_page_text(p: Page) -> Seq<char> {
    crate::tags::strip_from(
        crate::partition::join_upto(
            crate::partition::views_of(p.text@),
            p.text@.len() as int,
        ),
        "<think>"@,
        "</think>"@,
        0,
    )
}

/// An exact copy of a string list.
fn clone_strings(v: &Vec<String>) -> (r: Vec<String>)
    ensures
        r@ == v@,
{
    let mut out: Vec<String> = Vec::new();
    let mut i: usize = 0;
    while i < v.len()
        invariant
            i <= v@.len(),
            out@ == v@.subrange(0, i as int),
        decreases v@.len() - i,
    {
        out.push(v[i].clone());
        i = i + 1;
        proof {
            assert(out@ =~= v@.subrange(0, i as int));
        }
    }
    proof {
        assert(out@ =~= v@);
    }
    out
}

impl TranslationModel {
    /// The accumulated text of one page, all units joined by single
    /// spaces, ready to be written to one file; `None` past the document.
    pub fn save_page(&self, page: usize) -> (r: Option<String>)
        ensures
            r is Some <==> page < self.pages@.len(),
            r matches Some(c) ==> c@ == crate::partition::joined_with(
                crate::partition::views_of(self.pages@[page as int].text@),
                " "@,
                self.pages@[page as int].text@.len() as int,
            ),
    {
        if page >= self.pages.len() {
            return None;
        }
        Some(crate::partition::join_strings(&self.pages[page].text, " "))
    }

    /// The files a finished session is saved as: one markdown document per
    /// `Complete` page, named after the chapter's file stem, holding the
    /// page's units joined by newlines with reasoning traces stripped.
    pub fn save_pages(&self) -> (r: Vec<(String, String)>)
        ensures
            ({
                let idxs = complete_indices(self.pages@, 0);
                &&& r@.len() == idxs.len()
                &&& forall|j: int|
                    0 <= j < idxs.len() ==> ({
                        let e = #[trigger] r@[j];
                        &&& e.0@ == crate::paths::stem_of(
                            crate::paths::file_name_of(self.pages@[idxs[j]].path@),
                        ) + ".md"@
                        &&& e.1@ == saved_page_text(self.pages@[idxs[j]])
                    })
            }),
    {
        let mut out: Vec<(String, String)> = Vec::new();
        let mut i: usize = 0;
        proof {
            assert(complete_indices(self.pages@, 0).subrange(0, 0) =~= Seq::<int>::empty());
        }
        while i < self.pages.len()
            invariant
                i <= self.pages@.len(),
                out@.len() == complete_indices(self.pages@, 0).len() - complete_indices(
                    self.pages@,
                    i as int,
                ).len(),
                complete_indices(self.pages@, 0) =~= complete_indices(
                    self.pages@,
                    0,
                ).subrange(0, out@.len() as int) + complete_indices(self.pages@, i as int),
                forall|j: int|
                    0 <= j < out@.len() ==> ({
                        let e = #[trigger] out@[j];
                        let idxs = complete_indices(self.pages@, 0);
                        &&& e.0@ == crate::paths::stem_of(
                            crate::paths::file_name_of(self.pages@[idxs[j]].path@),
                        ) + ".md"@
                        &&& e.1@ == saved_page_text(self.pages@[idxs[j]])
                    }),
            decreases self.pages@.len() - i,
        {
            let keep = matches!(self.pages[i].activity, Activity::Complete)
                && self.pages[i].text.len() > 0;
            if keep {
                let name = crate::paths::to_md_name(self.pages[i].path.as_str());
                let units = clone_strings(&self.pages[i].text);
                let joined = crate::partition::join_partition(units);
                let content = crate::tags::remove_think_tags(joined.as_str());
                proof {
                    let idxs0 = complete_indices(self.pages@, 0);
                    assert(complete_indices(self.pages@, i as int) == seq![i as int]
                        + complete_indices(self.pages@, (i + 1) as int));
                    assert(idxs0[out@.len() as int] == i as int);
                    assert(idxs0.subrange(0, (out@.len() + 1) as int) =~= idxs0.subrange(
                        0,
                        out@.len() as int,
                    ).push(i as int));
                    assert(idxs0.subrange(0, (out@.len() + 1) as int) + complete_indices(
                        self.pages@,
                        (i + 1) as int,
                    ) =~= idxs0);
                }
                out.push((name, content));
            } else {
                proof {
                    assert(complete_indices(self.pages@, i as int) == complete_indices(
                        self.pages@,
                        (i + 1) as int,
                    ));
                }
            }
            i = i + 1;
        }
        proof {
            assert(complete_indices(self.pages@, self.pages@.len() as int)
                =~= Seq::<int>::empty());
            assert(complete_indices(self.pages@, 0).subrange(
                0,
                out@.len() as int,
            ) =~= complete_indices(self.pages@, 0));
        }
        out
    }
}

/// Cancellation, stated as one law: in any state an abort leaves behind, no
/// page is `Active` any more, and no handle at all — in particular none
/// that was issued to a call before the abort — is recognised by the
/// registry, so [`TranslationModel::update_content`] refuses every chunk
/// such a call may still deliver.
pub proof fn lemma_abort_cancels(m0: TranslationModel, m1: TranslationModel, handle: u64)
    requires
        aborted_state(m0, m1),
    ensures
        forall|i: int| 0 <= i < m1.pages@.len() ==> !((#[trigger] m1.pages@[i]).activity is Active),
        !m1.server_state.handles@.contains(handle),
{
    assert forall|i: int|
        0 <= i < m1.pages@.len() implies !((#[trigger] m1.pages@[i]).activity is Active) by {
        let p0 = m0.pages@[i];
        assert(p0.activity is Active || !(p0.activity is Active));
    }
}

} // verus!
