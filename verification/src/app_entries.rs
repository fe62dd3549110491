//! The entries of an app directory and the chunks and manifest records that
//! a production build makes of them.
use std::collections::HashMap;
use vstd::prelude::*;

use crate::manifest::{AppBuildManifest, AppPathsManifest, BuildManifest};

verus! {

broadcast use vstd::std_specs::hash::group_hash_axioms;

/// The entry module of an app route or page.
pub struct AppEntry<E> {
    /// The pathname of the route or page.
    pub pathname: String,
    /// The original Next.js name of the route or page. This is used instead
    /// of the pathname to refer to this entry.
    pub original_name: String,
    /// The server component module of the route or page.
    pub rsc_entry: E,
}

/// All app entries, with the runtime entries evaluated before them.
pub struct AppEntries<E, R> {
    /// All app entries.
    pub entries: Vec<AppEntry<E>>,
    /// The runtime entries evaluated before any app entry module when
    /// rendering on the server.
    pub rsc_runtime_entries: R,
    /// The runtime entries evaluated before any app entry module when
    /// rendering on the client.
    pub client_runtime_entries: R,
}

/// A chunk of the client runtime that every app page shares.
pub struct SharedClientChunk<C> {
    pub chunk: C,
    /// The extension of the chunk's path, if it has one.
    pub extension: Option<String>,
    /// The chunk's path relative to the client root, if it lies inside it.
    pub path_from_client_root: Option<String>,
}

/// A client chunk of a client reference.
pub struct ClientChunk<C> {
    pub chunk: C,
    /// The chunk's path relative to the directory of the app build
    /// manifest, if it lies inside it.
    pub path_from_manifest_dir: Option<String>,
}

/// The chunks that a client reference needs on the client and for server
/// side rendering.
pub struct ClientReferenceChunks<C> {
    pub client_chunks: Vec<ClientChunk<C>>,
    pub ssr_chunks: Vec<C>,
}

/// The server chunk of an app entry.
pub struct RscChunk<C> {
    pub chunk: C,
    /// The chunk's path relative to the directory of the app paths
    /// manifest, if it lies inside it.
    pub path_from_manifest_dir: Option<String>,
}

/// What the chunk bookkeeping of an app entry found missing.
#[derive(Debug, Clone, Copy, PartialEq, Eq)]
pub enum MissingChunkInput {
    /// The entry has no list of client references.
    ClientReferences,
    /// One of the entry's client references has no chunks.
    ClientReferenceChunks,
    /// A client chunk of the entry lies outside the app build manifest's
    /// directory.
    ClientChunkPath,
    /// The entry's server chunk lies outside the app paths manifest's
    /// directory.
    RscChunkPath,
}

/// An entrypoint of the app directory.
pub enum Entrypoint<L, P> {
    /// A page, rendered from its loader tree.
    AppPage { loader_tree: L },
    /// A route handler, at the path of its source file.
    AppRoute { path: P },
}

/// What the app directory holds: its entrypoints by pathname, in order, and
/// the favicon of its global metadata, if it has one.
pub struct AppStructure<L, P, F> {
    pub entrypoints: Vec<(String, Entrypoint<L, P>)>,
    pub favicon: Option<F>,
}

/// An app entry to be made, in the server component context.
pub enum AppEntryJob<L, P, F> {
    /// The entry of a page.
    Page { pathname: String, loader_tree: L },
    /// The entry of a route handler, whose source is the file at `path`.
    Route { pathname: String, path: P },
    /// The entry that serves the favicon.
    Favicon { favicon: F },
}

/// The transitions that the server component context offers by name.
#[derive(Debug, Clone, Copy, PartialEq, Eq, Structural)]
pub enum TransitionKind {
    /// Into the client reference transition, which chunks a module for the
    /// client and for server side rendering.
    EcmascriptClientReference,
    /// Into the client context, for dynamic imports.
    Dynamic,
}

/// The mode that contexts are made for.
#[derive(Debug, Clone, Copy, PartialEq, Eq, Structural)]
pub enum NextMode {
    /// A development server.
    Development,
    /// A production build.
    Build,
}

/// The environment variables that runtime entries are made with.
#[derive(Debug, Clone, Copy, PartialEq, Eq, Structural)]
pub enum RuntimeEnv {
    /// The process environment handed to the build.
    Process,
    /// The process environment handed to the build, extended by the
    /// environment of the project's config.
    ProcessWithConfig,
}

/// The context in which a list of runtime entries is resolved.
#[derive(Debug, Clone, Copy, PartialEq, Eq, Structural)]
pub enum ResolutionContext {
    /// The server component context of the entries, with its transitions.
    Rsc,
    /// The client context, with no transitions.
    Client,
}

/// How a server component context is made.
pub struct ServerContextPlan {
    /// Whether the context has the client transition.
    pub client_transition: bool,
    /// The transition name under which the context finds the client reference
    /// transition, if it has one.
    pub ecmascript_client_reference_transition_name: Option<String>,
}

/// How the app entries of an app directory are made.
pub struct AppEntriesPlan<L, P, F> {
    /// The mode that every context is made for.
    pub mode: NextMode,
    /// The environment of the server runtime entries.
    pub server_runtime_entries_env: RuntimeEnv,
    /// The server component context of the server runtime entries.
    pub server_runtime_entries_context: ServerContextPlan,
    /// The context in which the server runtime entries are resolved.
    pub server_runtime_entries_resolved_in: ResolutionContext,
    /// The environment of the client runtime entries.
    pub client_runtime_entries_env: RuntimeEnv,
    /// The context in which the client runtime entries are resolved.
    pub client_runtime_entries_resolved_in: ResolutionContext,
    /// The named transitions of the server component context of the entries.
    pub transitions: Vec<(String, TransitionKind)>,
    /// The server component context of the entries.
    pub rsc_context: ServerContextPlan,
    /// The entries to make, in order.
    pub jobs: Vec<AppEntryJob<L, P, F>>,
}

/// An app entry job, with its pathname as characters.
pub enum AppEntryJobView<L, P, F> {
    Page { pathname: Seq<char>, loader_tree: L },
    Route { pathname: Seq<char>, path: P },
    Favicon { favicon: F },
}

impl<L, P, F> View for AppEntryJob<L, P, F> {
    type V = AppEntryJobView<L, P, F>;

    open spec fn view(&self) -> AppEntryJobView<L, P, F> {
        match self {
            AppEntryJob::Page { pathname, loader_tree } => AppEntryJobView::Page {
                pathname: pathname@,
                loader_tree: *loader_tree,
            },
            AppEntryJob::Route { pathname, path } => AppEntryJobView::Route {
                pathname: pathname@,
                path: *path,
            },
            AppEntryJob::Favicon { favicon } => AppEntryJobView::Favicon { favicon: *favicon },
        }
    }
}

/// A server component context plan, with its transition name as characters.
pub struct ServerContextView {
    pub client_transition: bool,
    pub ecmascript_client_reference_transition_name: Option<Seq<char>>,
}

impl View for ServerContextPlan {
    type V = ServerContextView;

    open spec fn view(&self) -> ServerContextView {
        ServerContextView {
            client_transition: self.client_transition,
            ecmascript_client_reference_transition_name: match self.ecmascript_client_reference_transition_name {
                Some(n) => Some(n@),
                None => None,
            },
        }
    }
}

/// An app entries plan, with its strings as characters.
pub struct AppEntriesPlanView<L, P, F> {
    pub mode: NextMode,
    pub server_runtime_entries_env: RuntimeEnv,
    pub server_runtime_entries_context: ServerContextView,
    pub server_runtime_entries_resolved_in: ResolutionContext,
    pub client_runtime_entries_env: RuntimeEnv,
    pub client_runtime_entries_resolved_in: ResolutionContext,
    pub transitions: Seq<(Seq<char>, TransitionKind)>,
    pub rsc_context: ServerContextView,
    pub jobs: Seq<AppEntryJobView<L, P, F>>,
}

impl<L, P, F> View for AppEntriesPlan<L, P, F> {
    type V = AppEntriesPlanView<L, P, F>;

    open spec fn view(&self) -> AppEntriesPlanView<L, P, F> {
        AppEntriesPlanView {
            mode: self.mode,
            server_runtime_entries_env: self.server_runtime_entries_env,
            server_runtime_entries_context: self.server_runtime_entries_context@,
            server_runtime_entries_resolved_in: self.server_runtime_entries_resolved_in,
            client_runtime_entries_env: self.client_runtime_entries_env,
            client_runtime_entries_resolved_in: self.client_runtime_entries_resolved_in,
            transitions: self.transitions@.map_values(|t: (String, TransitionKind)| (t.0@, t.1)),
            rsc_context: self.rsc_context@,
            jobs: self.jobs@.map_values(|j: AppEntryJob<L, P, F>| j@),
        }
    }
}

/// What an app directory holds, with its pathnames as characters.
pub struct AppStructureView<L, P, F> {
    pub entrypoints: Seq<(Seq<char>, Entrypoint<L, P>)>,
    pub favicon: Option<F>,
}

impl<L, P, F> View for AppStructure<L, P, F> {
    type V = AppStructureView<L, P, F>;

    open spec fn view(&self) -> AppStructureView<L, P, F> {
        AppStructureView {
            entrypoints: self.entrypoints@.map_values(
                |e: (String, Entrypoint<L, P>)| (e.0@, e.1),
            ),
            favicon: self.favicon,
        }
    }
}

/// The job that makes the entry of `entrypoint` at `pathname`.
pub open spec fn job_view_for<L, P, F>(pathname: Seq<char>, entrypoint: Entrypoint<L, P>) -> AppEntryJobView<L, P, F> {
    match entrypoint {
        Entrypoint::AppPage { loader_tree } => AppEntryJobView::Page { pathname, loader_tree },
        Entrypoint::AppRoute { path } => AppEntryJobView::Route { pathname, path },
    }
}

/// The plan for an app directory, as a function of what it holds.
pub open spec fn planned_app_entries<L, P, F>(app: AppStructureView<L, P, F>) -> AppEntriesPlanView<
    L,
    P,
    F,
> {
    AppEntriesPlanView {
        mode: NextMode::Build,
        server_runtime_entries_env: RuntimeEnv::Process,
        server_runtime_entries_context: ServerContextView {
            client_transition: false,
            ecmascript_client_reference_transition_name: None,
        },
        server_runtime_entries_resolved_in: ResolutionContext::Rsc,
        client_runtime_entries_env: RuntimeEnv::ProcessWithConfig,
        client_runtime_entries_resolved_in: ResolutionContext::Client,
        transitions: seq![
            (ecmascript_client_reference_transition_name(), TransitionKind::EcmascriptClientReference),
            (dynamic_transition_name(), TransitionKind::Dynamic),
        ],
        rsc_context: ServerContextView {
            client_transition: true,
            ecmascript_client_reference_transition_name: Some(
                ecmascript_client_reference_transition_name(),
            ),
        },
        jobs: Seq::new(
            app.entrypoints.len(),
            |i: int| job_view_for(app.entrypoints[i].0, app.entrypoints[i].1),
        ) + match app.favicon {
            Some(favicon) => seq![AppEntryJobView::Favicon { favicon }],
            None => Seq::empty(),
        },
    }
}

/// The name of the client reference transition.
pub open spec fn ecmascript_client_reference_transition_name() -> Seq<char> {
    "next-ecmascript-client-reference"@
}

/// The name of the dynamic import transition.
pub open spec fn dynamic_transition_name() -> Seq<char> {
    "next-dynamic"@
}

/// `job` makes the entry of the entrypoint `entrypoint` at `pathname`.
pub open spec fn is_job_for<L, P, F>(
    pathname: Seq<char>,
    entrypoint: Entrypoint<L, P>,
    job: AppEntryJob<L, P, F>,
) -> bool {
    match entrypoint {
        Entrypoint::AppPage { loader_tree } => job matches AppEntryJob::Page {
            pathname: p,
            loader_tree: l,
        } && p@ == pathname && l == loader_tree,
        Entrypoint::AppRoute { path } => job matches AppEntryJob::Route { pathname: p, path: q }
            && p@ == pathname && q == path,
    }
}

/// `plan` is how the app entries of `app` are made: one job per entrypoint,
/// in order, then the favicon's, if there is one; the two named transitions,
/// the server component context of the entries having the client transition
/// and finding the client reference transition under its name; contexts made
/// for a production build; the server runtime entries made with the process
/// environment in a server component context without the client transition;
/// and the client runtime entries made with the process environment extended
/// by the config's.
pub open spec fn is_plan_for<L, P, F>(app: AppStructure<L, P, F>, plan: AppEntriesPlan<L, P, F>) -> bool {
    let n = app.entrypoints@.len();
    &&& plan.jobs@.len() == n + if app.favicon is Some { 1int } else { 0int }
    &&& forall|i: int|
        0 <= i < n ==> is_job_for(
            app.entrypoints@[i].0@,
            app.entrypoints@[i].1,
            #[trigger] plan.jobs@[i],
        )
    &&& app.favicon matches Some(f) ==> plan.jobs@[n as int] matches AppEntryJob::Favicon { favicon }
        && favicon == f
    &&& plan.transitions@.len() == 2
    &&& plan.transitions@[0].0@ == ecmascript_client_reference_transition_name()
    &&& plan.transitions@[0].1 == TransitionKind::EcmascriptClientReference
    &&& plan.transitions@[1].0@ == dynamic_transition_name()
    &&& plan.transitions@[1].1 == TransitionKind::Dynamic
    &&& plan.rsc_context.client_transition
    &&& plan.rsc_context.ecmascript_client_reference_transition_name matches Some(name)
    &&& name@ == ecmascript_client_reference_transition_name()
    &&& plan.mode == NextMode::Build
    &&& plan.server_runtime_entries_env == RuntimeEnv::Process
    &&& !plan.server_runtime_entries_context.client_transition
    &&& plan.server_runtime_entries_context.ecmascript_client_reference_transition_name is None
    &&& plan.client_runtime_entries_env == RuntimeEnv::ProcessWithConfig
    &&& plan.server_runtime_entries_resolved_in == ResolutionContext::Rsc
    &&& plan.client_runtime_entries_resolved_in == ResolutionContext::Client
}

/// Plans the app entries of a project: none where the project has no app
/// directory; otherwise one entry per entrypoint of the app directory, in
/// order, then one for the favicon of its global metadata, if it has one.
pub fn get_app_entries<L: Copy, P: Copy, F: Copy>(app: Option<&AppStructure<L, P, F>>) -> (plan:
    Option<AppEntriesPlan<L, P, F>>)
    ensures
        plan is None <==> app is None,
        plan matches Some(p) ==> is_plan_for(*app->0, p),
        plan matches Some(p) ==> p@ == planned_app_entries(app->0@),
{
    let app = match app {
        Some(a) => a,
        None => {
            return None;
        },
    };
    let client_reference_name = String::from_str("next-ecmascript-client-reference");
    let mut transitions: Vec<(String, TransitionKind)> = Vec::new();
    transitions.push((client_reference_name.clone(), TransitionKind::EcmascriptClientReference));
    transitions.push((String::from_str("next-dynamic"), TransitionKind::Dynamic));
    let mut jobs: Vec<AppEntryJob<L, P, F>> = Vec::new();
    let n = app.entrypoints.len();
    let mut i: usize = 0;
    while i < n
        invariant
            n == app.entrypoints.len(),
            i <= n,
            jobs@.len() == i,
            forall|j: int|
                0 <= j < i ==> is_job_for(
                    app.entrypoints@[j].0@,
                    app.entrypoints@[j].1,
                    #[trigger] jobs@[j],
                ),
        decreases n - i,
    {
        let pathname = &app.entrypoints[i].0;
        let job = match &app.entrypoints[i].1 {
            Entrypoint::AppPage { loader_tree } => AppEntryJob::Page {
                pathname: pathname.clone(),
                loader_tree: *loader_tree,
            },
            Entrypoint::AppRoute { path } => AppEntryJob::Route {
                pathname: pathname.clone(),
                path: *path,
            },
        };
        jobs.push(job);
        i = i + 1;
    }
    match app.favicon {
        Some(favicon) => {
            jobs.push(AppEntryJob::Favicon { favicon });
        },
        None => {},
    }
    let plan = AppEntriesPlan {
            mode: NextMode::Build,
            server_runtime_entries_env: RuntimeEnv::Process,
            server_runtime_entries_context: ServerContextPlan {
                client_transition: false,
                ecmascript_client_reference_transition_name: None,
            },
            server_runtime_entries_resolved_in: ResolutionContext::Rsc,
            client_runtime_entries_env: RuntimeEnv::ProcessWithConfig,
            client_runtime_entries_resolved_in: ResolutionContext::Client,
            transitions,
            rsc_context: ServerContextPlan {
                client_transition: true,
                ecmascript_client_reference_transition_name: Some(client_reference_name),
            },
            jobs,
        };
    proof {
        let expected = planned_app_entries(app@);
        let n = app.entrypoints@.len();
        assert(plan@.transitions =~= expected.transitions);
        assert forall|i: int| 0 <= i < plan.jobs@.len() implies #[trigger] plan@.jobs[i]
            == expected.jobs[i] by {
            if i < n {
                assert(is_job_for(app.entrypoints@[i].0@, app.entrypoints@[i].1, plan.jobs@[i]));
                assert(app@.entrypoints[i] == (app.entrypoints@[i].0@, app.entrypoints@[i].1));
            }
        }
        assert(plan@.jobs =~= expected.jobs);
        assert(plan@ =~= expected);
    }
    Some(plan)
}

/// The values present among the first `n` options, in order.
pub open spec fn present_values<P>(options: Seq<Option<P>>, n: nat) -> Seq<P>
    decreases n,
{
    if n == 0 {
        seq![]
    } else {
        let prev = present_values(options, (n - 1) as nat);
        match options[n - 1] {
            Some(p) => prev.push(p),
            None => prev,
        }
    }
}

/// The chunk items of the chunk that the client runtime of every app page
/// shares: the client runtime entries that resolved to chunk items, in
/// order; the others are left out.
pub fn get_app_shared_client_chunk<P: Copy>(resolved_runtime_entries: &Vec<Option<P>>) -> (items:
    Vec<P>)
    ensures
        items@ == present_values(resolved_runtime_entries@, resolved_runtime_entries@.len()),
{
    let mut items: Vec<P> = Vec::new();
    let n = resolved_runtime_entries.len();
    let mut i: usize = 0;
    while i < n
        invariant
            n == resolved_runtime_entries.len(),
            i <= n,
            items@ == present_values(resolved_runtime_entries@, i as nat),
        decreases n - i,
    {
        match resolved_runtime_entries[i] {
            Some(p) => items.push(p),
            None => {},
        }
        i = i + 1;
    }
    items
}

/// The relative path, under the node root, of the server chunk of the app
/// entry with the given original name.
pub fn rsc_chunk_path(original_name: &str) -> (path: String)
    ensures
        path@ == "server/app/"@ + original_name@ + ".js"@,
{
    let mut path = String::from_str("server/app/");
    path.append(original_name);
    path.append(".js");
    path
}

/// Whether a path extension is that of a JavaScript chunk.
pub open spec fn is_js_extension(extension: Option<String>) -> bool {
    extension matches Some(e) && e@ == "js"@
}

/// The paths, relative to the client root, of the first `n` shared chunks
/// that are JavaScript and lie inside the client root, in order.
pub open spec fn shared_client_chunk_paths<C>(shared: Seq<SharedClientChunk<C>>, n: nat) -> Seq<
    Seq<char>,
>
    decreases n,
{
    if n == 0 {
        seq![]
    } else {
        let prev = shared_client_chunk_paths(shared, (n - 1) as nat);
        let c = shared[n - 1];
        if is_js_extension(c.extension) && c.path_from_client_root is Some {
            prev.push(c.path_from_client_root->0@)
        } else {
            prev
        }
    }
}

/// The manifest paths of a list of client chunks.
pub open spec fn client_chunk_paths<C>(chunks: Seq<ClientChunk<C>>) -> Seq<Seq<char>> {
    Seq::new(chunks.len(), |k: int| chunks[k].path_from_manifest_dir->0@)
}

/// The manifest paths of the client chunks of the first `n` references, in
/// order.
pub open spec fn reference_client_chunk_paths<C>(
    references: Seq<u64>,
    chunks: Map<u64, ClientReferenceChunks<C>>,
    n: nat,
) -> Seq<Seq<char>>
    decreases n,
{
    if n == 0 {
        seq![]
    } else {
        reference_client_chunk_paths(references, chunks, (n - 1) as nat) + client_chunk_paths(
            chunks[references[n - 1]].client_chunks@,
        )
    }
}

/// Every reference has chunks.
pub open spec fn references_have_chunks<C>(
    references: Seq<u64>,
    chunks: Map<u64, ClientReferenceChunks<C>>,
) -> bool {
    forall|j: int| 0 <= j < references.len() ==> chunks.contains_key(#[trigger] references[j])
}

/// Every client chunk of every reference lies inside the manifest directory.
pub open spec fn client_chunk_paths_known<C>(
    references: Seq<u64>,
    chunks: Map<u64, ClientReferenceChunks<C>>,
) -> bool {
    forall|j: int, k: int|
        0 <= j < references.len() && 0 <= k < chunks[references[j]].client_chunks@.len() ==> (
        #[trigger] chunks[references[j]].client_chunks@[k]).path_from_manifest_dir is Some
}

/// What is missing for one entry, checked in the order in which the build
/// needs it.
pub open spec fn entry_missing<C>(
    entry: AppEntry<u64>,
    rsc_chunk: RscChunk<C>,
    references_by_entry: Map<u64, Vec<u64>>,
    chunks: Map<u64, ClientReferenceChunks<C>>,
) -> Option<MissingChunkInput> {
    if !references_by_entry.contains_key(entry.rsc_entry) {
        Some(MissingChunkInput::ClientReferences)
    } else if !references_have_chunks(references_by_entry[entry.rsc_entry]@, chunks) {
        Some(MissingChunkInput::ClientReferenceChunks)
    } else if !client_chunk_paths_known(references_by_entry[entry.rsc_entry]@, chunks) {
        Some(MissingChunkInput::ClientChunkPath)
    } else if rsc_chunk.path_from_manifest_dir is None {
        Some(MissingChunkInput::RscChunkPath)
    } else {
        None
    }
}

/// What is missing first among the first `n` entries.
pub open spec fn first_missing<C>(
    entries: Seq<AppEntry<u64>>,
    rsc_chunks: Seq<RscChunk<C>>,
    references_by_entry: Map<u64, Vec<u64>>,
    chunks: Map<u64, ClientReferenceChunks<C>>,
    n: nat,
) -> Option<MissingChunkInput>
    decreases n,
{
    if n == 0 {
        None
    } else {
        match first_missing(entries, rsc_chunks, references_by_entry, chunks, (n - 1) as nat) {
            Some(m) => Some(m),
            None => entry_missing(entries[n - 1], rsc_chunks[n - 1], references_by_entry, chunks),
        }
    }
}

/// The client chunk paths that the app build manifest records for an entry:
/// those of its client references, then the shared ones.
pub open spec fn page_client_paths<C>(
    entry: AppEntry<u64>,
    references_by_entry: Map<u64, Vec<u64>>,
    chunks: Map<u64, ClientReferenceChunks<C>>,
    shared_paths: Seq<Seq<char>>,
) -> Seq<Seq<char>> {
    let references = references_by_entry[entry.rsc_entry]@;
    reference_client_chunk_paths(references, chunks, references.len()) + shared_paths
}

/// The pages of the app build manifest after the first `n` entries were
/// recorded, each under its original name.
pub open spec fn pages_after<C>(
    pages: Map<Seq<char>, Seq<Seq<char>>>,
    entries: Seq<AppEntry<u64>>,
    references_by_entry: Map<u64, Vec<u64>>,
    chunks: Map<u64, ClientReferenceChunks<C>>,
    shared_paths: Seq<Seq<char>>,
    n: nat,
) -> Map<Seq<char>, Seq<Seq<char>>>
    decreases n,
{
    if n == 0 {
        pages
    } else {
        pages_after(pages, entries, references_by_entry, chunks, shared_paths, (n - 1) as nat).insert(
            entries[n - 1].original_name@,
            page_client_paths(entries[n - 1], references_by_entry, chunks, shared_paths),
        )
    }
}

/// The server paths of the app paths manifest after the first `n` entries
/// were recorded, each under its original name.
pub open spec fn server_paths_after<C>(
    paths: Map<Seq<char>, Seq<char>>,
    entries: Seq<AppEntry<u64>>,
    rsc_chunks: Seq<RscChunk<C>>,
    n: nat,
) -> Map<Seq<char>, Seq<char>>
    decreases n,
{
    if n == 0 {
        paths
    } else {
        server_paths_after(paths, entries, rsc_chunks, (n - 1) as nat).insert(
            entries[n - 1].original_name@,
            rsc_chunks[n - 1].path_from_manifest_dir->0@,
        )
    }
}

proof fn lemma_first_missing_none<C>(
    entries: Seq<AppEntry<u64>>,
    rsc_chunks: Seq<RscChunk<C>>,
    references_by_entry: Map<u64, Vec<u64>>,
    chunks: Map<u64, ClientReferenceChunks<C>>,
    n: nat,
)
    requires
        first_missing(entries, rsc_chunks, references_by_entry, chunks, n) is None,
    ensures
        forall|i: int|
            0 <= i < n ==> #[trigger] entry_missing(
                entries[i],
                rsc_chunks[i],
                references_by_entry,
                chunks,
            ) is None,
    decreases n,
{
    if n > 0 {
        lemma_first_missing_none(entries, rsc_chunks, references_by_entry, chunks, (n - 1) as nat);
    }
}

/// Whether an extension is `js`.
fn is_js(extension: &Option<String>) -> (b: bool)
    ensures
        b == is_js_extension(*extension),
{
    match extension {
        Some(e) => {
            let js = String::from_str("js");
            js == *e
        },
        None => false,
    }
}

/// Appends copies of `source` to `target`.
fn extend_with_clones(target: &mut Vec<String>, source: &Vec<String>)
    ensures
        final(target).deep_view() == old(target).deep_view() + source.deep_view(),
{
    let ghost start = target.deep_view();
    let n = source.len();
    let mut i: usize = 0;
    while i < n
        invariant
            n == source.len(),
            i <= n,
            start == old(target).deep_view(),
            target.deep_view() =~= start + source.deep_view().take(i as int),
        decreases n - i,
    {
        let ghost before = target.deep_view();
        target.push(source[i].clone());
        proof {
            assert(target.deep_view() =~= before.push(source@[i as int]@));
            assert(source.deep_view().take(i + 1) =~= source.deep_view().take(i as int).push(
                source@[i as int]@,
            ));
        }
        i = i + 1;
    }
    proof {
        assert(source.deep_view().take(n as int) =~= source.deep_view());
    }
}

/// The manifest paths of the client chunks of `references`, in order.
fn collect_client_chunk_paths<C>(
    references: &Vec<u64>,
    chunks: &HashMap<u64, ClientReferenceChunks<C>>,
) -> (paths: Vec<String>)
    requires
        references_have_chunks(references@, chunks@),
        client_chunk_paths_known(references@, chunks@),
    ensures
        paths.deep_view() == reference_client_chunk_paths(references@, chunks@, references@.len()),
{
    let mut paths: Vec<String> = Vec::new();
    let n = references.len();
    let mut j: usize = 0;
    while j < n
        invariant
            n == references.len(),
            j <= n,
            references_have_chunks(references@, chunks@),
            client_chunk_paths_known(references@, chunks@),
            paths.deep_view() =~= reference_client_chunk_paths(references@, chunks@, j as nat),
        decreases n - j,
    {
        let reference = references[j];
        assert(chunks@.contains_key(references@[j as int]));
        let reference_chunks = match chunks.get(&reference) {
            Some(c) => c,
            None => {
                return paths;
            },
        };
        let ghost before = paths.deep_view();
        let m = reference_chunks.client_chunks.len();
        let mut k: usize = 0;
        while k < m
            invariant
                n == references.len(),
                j < n,
                reference == references@[j as int],
                m == reference_chunks.client_chunks.len(),
                *reference_chunks == chunks@[reference],
                k <= m,
                client_chunk_paths_known(references@, chunks@),
                paths.deep_view() =~= before + client_chunk_paths(
                    reference_chunks.client_chunks@,
                ).take(k as int),
            decreases m - k,
        {
            let client_chunk = &reference_chunks.client_chunks[k];
            assert(chunks@[references@[j as int]].client_chunks@[k as int].path_from_manifest_dir is Some);
            match &client_chunk.path_from_manifest_dir {
                Some(p) => {
                    let ghost prev = paths.deep_view();
                    paths.push(p.clone());
                    assert(paths.deep_view() =~= prev.push(p@));
                },
                None => {
                    return paths;
                },
            }
            proof {
                let all = client_chunk_paths(reference_chunks.client_chunks@);
                assert(all.take(k + 1) =~= all.take(k as int).push(all[k as int]));
            }
            k = k + 1;
        }
        proof {
            let all = client_chunk_paths(reference_chunks.client_chunks@);
            assert(all.take(m as int) =~= all);
        }
        j = j + 1;
    }
    paths
}

/// What is missing for one entry, in the order in which the build needs it.
fn find_entry_missing<C>(
    entry: &AppEntry<u64>,
    rsc_chunk: &RscChunk<C>,
    references_by_entry: &HashMap<u64, Vec<u64>>,
    chunks: &HashMap<u64, ClientReferenceChunks<C>>,
) -> (m: Option<MissingChunkInput>)
    ensures
        m == entry_missing(*entry, *rsc_chunk, references_by_entry@, chunks@),
{
    let references = match references_by_entry.get(&entry.rsc_entry) {
        Some(r) => r,
        None => {
            return Some(MissingChunkInput::ClientReferences);
        },
    };
    let n = references.len();
    let mut j: usize = 0;
    while j < n
        invariant
            n == references.len(),
            j <= n,
            references_by_entry@.contains_key(entry.rsc_entry),
            *references == references_by_entry@[entry.rsc_entry],
            forall|i: int| 0 <= i < j ==> chunks@.contains_key(#[trigger] references@[i]),
        decreases n - j,
    {
        match chunks.get(&references[j]) {
            Some(_) => {},
            None => {
                assert(!chunks@.contains_key(references@[j as int]));
                return Some(MissingChunkInput::ClientReferenceChunks);
            },
        }
        j = j + 1;
    }
    assert(references_have_chunks(references@, chunks@));
    let mut j: usize = 0;
    while j < n
        invariant
            n == references.len(),
            j <= n,
            references_have_chunks(references@, chunks@),
            references_by_entry@.contains_key(entry.rsc_entry),
            *references == references_by_entry@[entry.rsc_entry],
            forall|a: int, k: int|
                0 <= a < j && 0 <= k < chunks@[references@[a]].client_chunks@.len() ==> (
                #[trigger] chunks@[references@[a]].client_chunks@[k]).path_from_manifest_dir is Some,
        decreases n - j,
    {
        let reference_chunks = match chunks.get(&references[j]) {
            Some(c) => c,
            None => {
                return Some(MissingChunkInput::ClientReferenceChunks);
            },
        };
        let m = reference_chunks.client_chunks.len();
        let mut k: usize = 0;
        while k < m
            invariant
                n == references.len(),
                j < n,
                m == reference_chunks.client_chunks.len(),
                references_have_chunks(references@, chunks@),
                references_by_entry@.contains_key(entry.rsc_entry),
                *references == references_by_entry@[entry.rsc_entry],
                *reference_chunks == chunks@[references@[j as int]],
                k <= m,
                forall|a: int, b: int|
                    0 <= a < j && 0 <= b < chunks@[references@[a]].client_chunks@.len() ==> (
                    #[trigger] chunks@[references@[a]].client_chunks@[b]).path_from_manifest_dir is Some,
                forall|b: int|
                    0 <= b < k ==> (#[trigger] reference_chunks.client_chunks@[b]).path_from_manifest_dir is Some,
            decreases m - k,
        {
            if reference_chunks.client_chunks[k].path_from_manifest_dir.is_none() {
                proof {
                    let bad = chunks@[references@[j as int]].client_chunks@[k as int];
                    assert(bad.path_from_manifest_dir is None);
                }
                return Some(MissingChunkInput::ClientChunkPath);
            }
            k = k + 1;
        }
        j = j + 1;
    }
    assert(client_chunk_paths_known(references@, chunks@));
    if rsc_chunk.path_from_manifest_dir.is_none() {
        return Some(MissingChunkInput::RscChunkPath);
    }
    None
}

/// Checks, entry by entry, that the chunk bookkeeping of
/// `compute_app_entries_chunks` finds everything it needs, and reports the
/// first thing that is missing.
pub fn check_app_entries_chunks_inputs<R, C>(
    app_entries: &AppEntries<u64, R>,
    app_client_references_by_entry: &HashMap<u64, Vec<u64>>,
    app_client_references_chunks: &HashMap<u64, ClientReferenceChunks<C>>,
    rsc_chunks: &Vec<RscChunk<C>>,
) -> (r: Result<(), MissingChunkInput>)
    requires
        rsc_chunks@.len() == app_entries.entries@.len(),
    ensures
        r == match first_missing(
            app_entries.entries@,
            rsc_chunks@,
            app_client_references_by_entry@,
            app_client_references_chunks@,
            app_entries.entries@.len(),
        ) {
            None => Ok(()),
            Some(m) => Err(m),
        },
{
    let n = app_entries.entries.len();
    let mut e: usize = 0;
    while e < n
        invariant
            n == app_entries.entries.len(),
            rsc_chunks@.len() == n,
            e <= n,
            first_missing(
                app_entries.entries@,
                rsc_chunks@,
                app_client_references_by_entry@,
                app_client_references_chunks@,
                e as nat,
            ) is None,
        decreases n - e,
    {
        match find_entry_missing(
            &app_entries.entries[e],
            &rsc_chunks[e],
            app_client_references_by_entry,
            app_client_references_chunks,
        ) {
            Some(m) => {
                proof {
                    lemma_first_missing_stays(
                        app_entries.entries@,
                        rsc_chunks@,
                        app_client_references_by_entry@,
                        app_client_references_chunks@,
                        (e + 1) as nat,
                        n as nat,
                    );
                }
                return Err(m);
            },
            None => {},
        }
        e = e + 1;
    }
    Ok(())
}

/// Once something is missing among the first `a` entries, it stays the first
/// missing thing among more entries.
proof fn lemma_first_missing_stays<C>(
    entries: Seq<AppEntry<u64>>,
    rsc_chunks: Seq<RscChunk<C>>,
    references_by_entry: Map<u64, Vec<u64>>,
    chunks: Map<u64, ClientReferenceChunks<C>>,
    a: nat,
    b: nat,
)
    requires
        a <= b,
        first_missing(entries, rsc_chunks, references_by_entry, chunks, a) is Some,
    ensures
        first_missing(entries, rsc_chunks, references_by_entry, chunks, b) == first_missing(
            entries,
            rsc_chunks,
            references_by_entry,
            chunks,
            a,
        ),
    decreases b - a,
{
    if a < b {
        lemma_first_missing_stays(entries, rsc_chunks, references_by_entry, chunks, a, (b - 1) as nat);
    }
}

/// Records the chunks of all app entries: every shared client chunk and every
/// entry's server chunk go to `all_chunks`; the shared JavaScript chunks that
/// lie inside the client root become root main files; each entry's page in
/// the app build manifest lists its client chunks and then the shared ones;
/// and each entry's page in the app paths manifest names its server chunk.
/// `rsc_chunks[i]` is the server chunk of `app_entries.entries[i]`, emitted
/// at `rsc_chunk_path` of its original name.
pub fn compute_app_entries_chunks<R, C: Copy>(
    app_entries: &AppEntries<u64, R>,
    app_client_references_by_entry: &HashMap<u64, Vec<u64>>,
    app_client_references_chunks: &HashMap<u64, ClientReferenceChunks<C>>,
    app_client_shared_chunks: &Vec<SharedClientChunk<C>>,
    rsc_chunks: &Vec<RscChunk<C>>,
    app_build_manifest: &mut AppBuildManifest,
    build_manifest: &mut BuildManifest,
    app_paths_manifest: &mut AppPathsManifest,
    all_chunks: &mut Vec<C>,
)
    requires
        rsc_chunks@.len() == app_entries.entries@.len(),
        first_missing(
            app_entries.entries@,
            rsc_chunks@,
            app_client_references_by_entry@,
            app_client_references_chunks@,
            app_entries.entries@.len(),
        ) is None,
    ensures
        final(all_chunks)@ == old(all_chunks)@ + app_client_shared_chunks@.map_values(
            |c: SharedClientChunk<C>| c.chunk,
        ) + rsc_chunks@.map_values(|c: RscChunk<C>| c.chunk),
        final(build_manifest).root_main_files.deep_view() == old(
            build_manifest,
        ).root_main_files.deep_view() + shared_client_chunk_paths(
            app_client_shared_chunks@,
            app_client_shared_chunks@.len(),
        ),
        final(app_build_manifest).pages@ == pages_after(
            old(app_build_manifest).pages@,
            app_entries.entries@,
            app_client_references_by_entry@,
            app_client_references_chunks@,
            shared_client_chunk_paths(app_client_shared_chunks@, app_client_shared_chunks@.len()),
            app_entries.entries@.len(),
        ),
        final(app_paths_manifest).node_server_app_paths.pages@ == server_paths_after(
            old(app_paths_manifest).node_server_app_paths.pages@,
            app_entries.entries@,
            rsc_chunks@,
            app_entries.entries@.len(),
        ),
        old(all_chunks)@.is_prefix_of(final(all_chunks)@),
        old(build_manifest).root_main_files@.is_prefix_of(final(build_manifest).root_main_files@),
        old(app_build_manifest).pages.key_seq().is_prefix_of(
            final(app_build_manifest).pages.key_seq(),
        ),
        old(app_paths_manifest).node_server_app_paths.pages.key_seq().is_prefix_of(
            final(app_paths_manifest).node_server_app_paths.pages.key_seq(),
        ),
{
    let ghost start_files_vec = build_manifest.root_main_files@;
    let ghost start_page_keys = app_build_manifest.pages.key_seq();
    let ghost start_path_keys = app_paths_manifest.node_server_app_paths.pages.key_seq();
    let ghost shared = app_client_shared_chunks@;
    let ghost shared_chunks = shared.map_values(|c: SharedClientChunk<C>| c.chunk);
    let ghost start_chunks = all_chunks@;
    let ghost start_files = build_manifest.root_main_files.deep_view();
    let mut shared_paths: Vec<String> = Vec::new();
    let n_shared = app_client_shared_chunks.len();
    let mut i: usize = 0;
    while i < n_shared
        invariant
            n_shared == app_client_shared_chunks.len(),
            shared == app_client_shared_chunks@,
            shared_chunks == shared.map_values(|c: SharedClientChunk<C>| c.chunk),
            i <= n_shared,
            all_chunks@ =~= start_chunks + shared_chunks.take(i as int),
            shared_paths.deep_view() =~= shared_client_chunk_paths(shared, i as nat),
            start_files_vec.is_prefix_of(build_manifest.root_main_files@),
            start_page_keys == app_build_manifest.pages.key_seq(),
            start_path_keys == app_paths_manifest.node_server_app_paths.pages.key_seq(),
            build_manifest.root_main_files.deep_view() =~= start_files + shared_client_chunk_paths(
                shared,
                i as nat,
            ),
        decreases n_shared - i,
    {
        let shared_chunk = &app_client_shared_chunks[i];
        all_chunks.push(shared_chunk.chunk);
        if is_js(&shared_chunk.extension) {
            match &shared_chunk.path_from_client_root {
                Some(p) => {
                    let ghost prev_paths = shared_paths.deep_view();
                    let ghost prev_files = build_manifest.root_main_files.deep_view();
                    shared_paths.push(p.clone());
                    build_manifest.root_main_files.push(p.clone());
                    assert(shared_paths.deep_view() =~= prev_paths.push(p@));
                    assert(build_manifest.root_main_files.deep_view() =~= prev_files.push(p@));
                },
                None => {},
            }
        }
        proof {
            assert(shared_chunks.take(i + 1) =~= shared_chunks.take(i as int).push(
                shared_chunks[i as int],
            ));
        }
        i = i + 1;
    }
    proof {
        assert(shared_chunks.take(n_shared as int) =~= shared_chunks);
    }
    let ghost sp = shared_paths.deep_view();
    let ghost entries = app_entries.entries@;
    let ghost refs = app_client_references_by_entry@;
    let ghost chunk_map = app_client_references_chunks@;
    let ghost rsc = rsc_chunks@;
    let ghost rsc_list = rsc.map_values(|c: RscChunk<C>| c.chunk);
    let ghost start_pages = app_build_manifest.pages@;
    let ghost start_paths = app_paths_manifest.node_server_app_paths.pages@;
    let ghost mid_chunks = all_chunks@;
    proof {
        lemma_first_missing_none(entries, rsc, refs, chunk_map, entries.len());
    }
    let n = app_entries.entries.len();
    let mut e: usize = 0;
    while e < n
        invariant
            n == app_entries.entries.len(),
            entries == app_entries.entries@,
            refs == app_client_references_by_entry@,
            chunk_map == app_client_references_chunks@,
            rsc == rsc_chunks@,
            rsc.len() == n,
            rsc_list == rsc.map_values(|c: RscChunk<C>| c.chunk),
            sp == shared_paths.deep_view(),
            forall|i: int|
                0 <= i < n ==> #[trigger] entry_missing(entries[i], rsc[i], refs, chunk_map) is None,
            e <= n,
            all_chunks@ =~= mid_chunks + rsc_list.take(e as int),
            app_build_manifest.pages@ == pages_after(
                start_pages,
                entries,
                refs,
                chunk_map,
                sp,
                e as nat,
            ),
            app_paths_manifest.node_server_app_paths.pages@ == server_paths_after(
                start_paths,
                entries,
                rsc,
                e as nat,
            ),
            build_manifest.root_main_files.deep_view() == start_files + sp,
            start_files_vec.is_prefix_of(build_manifest.root_main_files@),
            start_page_keys.is_prefix_of(app_build_manifest.pages.key_seq()),
            start_path_keys.is_prefix_of(app_paths_manifest.node_server_app_paths.pages.key_seq()),
        decreases n - e,
    {
        let entry = &app_entries.entries[e];
        assert(entry_missing(entries[e as int], rsc[e as int], refs, chunk_map) is None);
        let references = match app_client_references_by_entry.get(&entry.rsc_entry) {
            Some(r) => r,
            None => {
                return ;
            },
        };
        let rsc_chunk = &rsc_chunks[e];
        all_chunks.push(rsc_chunk.chunk);
        let mut client_paths = collect_client_chunk_paths(references, app_client_references_chunks);
        extend_with_clones(&mut client_paths, &shared_paths);
        app_build_manifest.pages.insert(entry.original_name.clone(), client_paths);
        match &rsc_chunk.path_from_manifest_dir {
            Some(p) => {
                app_paths_manifest.node_server_app_paths.pages.insert(
                    entry.original_name.clone(),
                    p.clone(),
                );
            },
            None => {
                return ;
            },
        }
        proof {
            assert(rsc_list.take(e + 1) =~= rsc_list.take(e as int).push(rsc_list[e as int]));
        }
        e = e + 1;
    }
    proof {
        assert(rsc_list.take(n as int) =~= rsc_list);
    }
}


/// The page of an app entry in the app build manifest lists the client
/// chunk paths of that entry: where several of the first `n` entries share
/// an original name, the last of them is the one recorded.
pub proof fn lemma_pages_record_last_entry<C>(
    pages: Map<Seq<char>, Seq<Seq<char>>>,
    entries: Seq<AppEntry<u64>>,
    references_by_entry: Map<u64, Vec<u64>>,
    chunks: Map<u64, ClientReferenceChunks<C>>,
    shared_paths: Seq<Seq<char>>,
    n: nat,
    i: int,
)
    requires
        n <= entries.len(),
        0 <= i < n,
        forall|j: int| i < j < n ==> #[trigger] entries[j].original_name@ != entries[i].original_name@,
    ensures
        pages_after(pages, entries, references_by_entry, chunks, shared_paths, n).contains_key(
            entries[i].original_name@,
        ),
        pages_after(pages, entries, references_by_entry, chunks, shared_paths, n)[entries[i].original_name@]
            == page_client_paths(entries[i], references_by_entry, chunks, shared_paths),
    decreases n,
{
    if i < n - 1 {
        assert(entries[n - 1].original_name@ != entries[i].original_name@);
        lemma_pages_record_last_entry(
            pages,
            entries,
            references_by_entry,
            chunks,
            shared_paths,
            (n - 1) as nat,
            i,
        );
    }
}

/// Recording app entries leaves the pages of every other name as they were.
pub proof fn lemma_pages_keep_other_names<C>(
    pages: Map<Seq<char>, Seq<Seq<char>>>,
    entries: Seq<AppEntry<u64>>,
    references_by_entry: Map<u64, Vec<u64>>,
    chunks: Map<u64, ClientReferenceChunks<C>>,
    shared_paths: Seq<Seq<char>>,
    n: nat,
    name: Seq<char>,
)
    requires
        n <= entries.len(),
        forall|j: int| 0 <= j < n ==> #[trigger] entries[j].original_name@ != name,
    ensures
        pages_after(pages, entries, references_by_entry, chunks, shared_paths, n).contains_key(name)
            == pages.contains_key(name),
        pages_after(pages, entries, references_by_entry, chunks, shared_paths, n)[name]
            == pages[name],
    decreases n,
{
    if n > 0 {
        assert(entries[n - 1].original_name@ != name);
        lemma_pages_keep_other_names(
            pages,
            entries,
            references_by_entry,
            chunks,
            shared_paths,
            (n - 1) as nat,
            name,
        );
    }
}

/// The page of an app entry in the app paths manifest names that entry's
/// server chunk: where several of the first `n` entries share an original
/// name, the last of them is the one recorded.
pub proof fn lemma_server_paths_record_last_entry<C>(
    paths: Map<Seq<char>, Seq<char>>,
    entries: Seq<AppEntry<u64>>,
    rsc_chunks: Seq<RscChunk<C>>,
    n: nat,
    i: int,
)
    requires
        n <= entries.len(),
        0 <= i < n,
        forall|j: int| i < j < n ==> #[trigger] entries[j].original_name@ != entries[i].original_name@,
    ensures
        server_paths_after(paths, entries, rsc_chunks, n).contains_key(entries[i].original_name@),
        server_paths_after(paths, entries, rsc_chunks, n)[entries[i].original_name@]
            == rsc_chunks[i].path_from_manifest_dir->0@,
    decreases n,
{
    if i < n - 1 {
        assert(entries[n - 1].original_name@ != entries[i].original_name@);
        lemma_server_paths_record_last_entry(paths, entries, rsc_chunks, (n - 1) as nat, i);
    }
}

/// Recording app entries leaves the server paths of every other name as they
/// were.
pub proof fn lemma_server_paths_keep_other_names<C>(
    paths: Map<Seq<char>, Seq<char>>,
    entries: Seq<AppEntry<u64>>,
    rsc_chunks: Seq<RscChunk<C>>,
    n: nat,
    name: Seq<char>,
)
    requires
        n <= entries.len(),
        forall|j: int| 0 <= j < n ==> #[trigger] entries[j].original_name@ != name,
    ensures
        server_paths_after(paths, entries, rsc_chunks, n).contains_key(name) == paths.contains_key(
            name,
        ),
        server_paths_after(paths, entries, rsc_chunks, n)[name] == paths[name],
    decreases n,
{
    if n > 0 {
        assert(entries[n - 1].original_name@ != name);
        lemma_server_paths_keep_other_names(paths, entries, rsc_chunks, (n - 1) as nat, name);
    }
}

/// Every shared path recorded as a root main file is the path, from the
/// client root, of one of the shared chunks whose extension is `js`, and
/// there are no more of them than shared chunks.
pub proof fn lemma_shared_paths_are_js<C>(shared: Seq<SharedClientChunk<C>>, n: nat)
    requires
        n <= shared.len(),
    ensures
        shared_client_chunk_paths(shared, n).len() <= n,
        forall|p: int|
            0 <= p < shared_client_chunk_paths(shared, n).len() ==> exists|i: int|
                0 <= i < n && is_js_extension(#[trigger] shared[i].extension)
                    && shared[i].path_from_client_root is Some
                    && shared[i].path_from_client_root->0@ == #[trigger] shared_client_chunk_paths(
                    shared,
                    n,
                )[p],
    decreases n,
{
    if n > 0 {
        lemma_shared_paths_are_js(shared, (n - 1) as nat);
        let prev = shared_client_chunk_paths(shared, (n - 1) as nat);
        let cur = shared_client_chunk_paths(shared, n);
        assert forall|p: int| 0 <= p < cur.len() implies exists|i: int|
            0 <= i < n && is_js_extension(#[trigger] shared[i].extension)
                && shared[i].path_from_client_root is Some
                && shared[i].path_from_client_root->0@ == #[trigger] cur[p] by {
            if p < prev.len() {
                assert(cur[p] == prev[p]);
                let i = choose|i: int|
                    0 <= i < n - 1 && is_js_extension(#[trigger] shared[i].extension)
                        && shared[i].path_from_client_root is Some
                        && shared[i].path_from_client_root->0@ == prev[p];
                assert(is_js_extension(shared[i].extension));
            } else {
                assert(is_js_extension(shared[n - 1].extension));
            }
        }
    }
}


/// Two chunk tables that have chunks for the same client references and give
/// each of them the same client chunks; their SSR chunks may differ.
pub open spec fn same_client_chunks<C>(
    a: Map<u64, ClientReferenceChunks<C>>,
    b: Map<u64, ClientReferenceChunks<C>>,
) -> bool {
    &&& a.dom() == b.dom()
    &&& forall|k: u64| #[trigger] a.contains_key(k) ==> a[k].client_chunks@ == b[k].client_chunks@
}

proof fn lemma_reference_paths_ignore_ssr<C>(
    references: Seq<u64>,
    a: Map<u64, ClientReferenceChunks<C>>,
    b: Map<u64, ClientReferenceChunks<C>>,
    m: nat,
)
    requires
        same_client_chunks(a, b),
        m <= references.len(),
        references_have_chunks(references, a),
    ensures
        reference_client_chunk_paths(references, a, m) == reference_client_chunk_paths(
            references,
            b,
            m,
        ),
    decreases m,
{
    if m > 0 {
        lemma_reference_paths_ignore_ssr(references, a, b, (m - 1) as nat);
        assert(a.contains_key(references[m - 1]));
    }
}

proof fn lemma_entry_missing_ignores_ssr<C>(
    entry: AppEntry<u64>,
    rsc_chunk: RscChunk<C>,
    references_by_entry: Map<u64, Vec<u64>>,
    a: Map<u64, ClientReferenceChunks<C>>,
    b: Map<u64, ClientReferenceChunks<C>>,
)
    requires
        same_client_chunks(a, b),
    ensures
        entry_missing(entry, rsc_chunk, references_by_entry, a) == entry_missing(
            entry,
            rsc_chunk,
            references_by_entry,
            b,
        ),
{
    if references_by_entry.contains_key(entry.rsc_entry) {
        let references = references_by_entry[entry.rsc_entry]@;
        assert(references_have_chunks(references, a) == references_have_chunks(references, b)) by {
            assert(a.dom() == b.dom());
            if references_have_chunks(references, a) {
                assert forall|j: int| 0 <= j < references.len() implies b.contains_key(
                    #[trigger] references[j],
                ) by {
                    assert(a.contains_key(references[j]));
                }
            }
            if references_have_chunks(references, b) {
                assert forall|j: int| 0 <= j < references.len() implies a.contains_key(
                    #[trigger] references[j],
                ) by {
                    assert(b.contains_key(references[j]));
                }
            }
        }
        if references_have_chunks(references, a) {
            assert forall|j: int| 0 <= j < references.len() implies a[references[j]].client_chunks@
                == #[trigger] b[references[j]].client_chunks@ by {
                assert(a.contains_key(references[j]));
            }
            assert(client_chunk_paths_known(references, a) == client_chunk_paths_known(
                references,
                b,
            ));
        }
    }
}

/// The SSR chunks of client references reach no record: with two chunk
/// tables that differ only in them, the bookkeeping of the first `n` entries
/// finds the same thing missing first, and where nothing is missing it
/// records the same pages. (The other records of
/// `compute_app_entries_chunks` do not read the chunk table at all.)
pub proof fn lemma_ssr_chunks_reach_no_record<C>(
    pages: Map<Seq<char>, Seq<Seq<char>>>,
    entries: Seq<AppEntry<u64>>,
    rsc_chunks: Seq<RscChunk<C>>,
    references_by_entry: Map<u64, Vec<u64>>,
    a: Map<u64, ClientReferenceChunks<C>>,
    b: Map<u64, ClientReferenceChunks<C>>,
    shared_paths: Seq<Seq<char>>,
    n: nat,
)
    requires
        same_client_chunks(a, b),
        n <= entries.len(),
        n <= rsc_chunks.len(),
    ensures
        first_missing(entries, rsc_chunks, references_by_entry, a, n) == first_missing(
            entries,
            rsc_chunks,
            references_by_entry,
            b,
            n,
        ),
        first_missing(entries, rsc_chunks, references_by_entry, a, n) is None ==> pages_after(
            pages,
            entries,
            references_by_entry,
            a,
            shared_paths,
            n,
        ) == pages_after(pages, entries, references_by_entry, b, shared_paths, n),
    decreases n,
{
    if n > 0 {
        lemma_ssr_chunks_reach_no_record(
            pages,
            entries,
            rsc_chunks,
            references_by_entry,
            a,
            b,
            shared_paths,
            (n - 1) as nat,
        );
        lemma_entry_missing_ignores_ssr(
            entries[n - 1],
            rsc_chunks[n - 1],
            references_by_entry,
            a,
            b,
        );
        if first_missing(entries, rsc_chunks, references_by_entry, a, n) is None {
            let e = entries[n - 1];
            assert(entry_missing(e, rsc_chunks[n - 1], references_by_entry, a) is None);
            let references = references_by_entry[e.rsc_entry]@;
            lemma_reference_paths_ignore_ssr(references, a, b, references.len());
        }
    }
}


/// The plan of an app directory depends on nothing but what the directory
/// holds: two calls of `get_app_entries` on app directories holding the same
/// give plans that are the same.
pub proof fn lemma_app_entries_plan_is_determined<L, P, F>(
    a: AppStructureView<L, P, F>,
    b: AppStructureView<L, P, F>,
    plan_a: AppEntriesPlanView<L, P, F>,
    plan_b: AppEntriesPlanView<L, P, F>,
)
    requires
        a == b,
        plan_a == planned_app_entries(a),
        plan_b == planned_app_entries(b),
    ensures
        plan_a == plan_b,
{
}


/// The root main files that the shared chunks give are exactly the paths,
/// from the client root, of the shared chunks whose extension is `js` and
/// that lie inside the client root, in order: each such chunk gives one, and
/// no other chunk gives any.
pub proof fn lemma_shared_paths_are_all_js_chunks_inside_client_root<C>(
    shared: Seq<SharedClientChunk<C>>,
    n: nat,
)
    requires
        n <= shared.len(),
    ensures
        shared_client_chunk_paths(shared, n) == shared.take(n as int).filter(
            |c: SharedClientChunk<C>|
                (c.extension matches Some(e) && e@ == "js"@) && c.path_from_client_root is Some,
        ).map_values(|c: SharedClientChunk<C>| c.path_from_client_root->0@),
        forall|i: int|
            0 <= i < n && (#[trigger] shared[i].extension matches Some(e) && e@ == "js"@)
                && shared[i].path_from_client_root is Some ==> shared_client_chunk_paths(
                shared,
                n,
            ).contains(shared[i].path_from_client_root->0@),
    decreases n,
{
    let pred = |c: SharedClientChunk<C>|
        (c.extension matches Some(e) && e@ == "js"@) && c.path_from_client_root is Some;
    let path = |c: SharedClientChunk<C>| c.path_from_client_root->0@;
    if n == 0 {
        assert(shared.take(0) =~= Seq::<SharedClientChunk<C>>::empty());
        reveal(Seq::filter);
        assert(shared.take(0).filter(pred) =~= Seq::<SharedClientChunk<C>>::empty());
        assert(shared.take(0).filter(pred).map_values(path) =~= Seq::<Seq<char>>::empty());
    } else {
        lemma_shared_paths_are_all_js_chunks_inside_client_root(shared, (n - 1) as nat);
        let prev = shared.take(n - 1);
        let c = shared[n - 1];
        assert(shared.take(n as int) =~= prev.push(c));
        prev.lemma_filter_push(c, pred);
        if pred(c) {
            assert(prev.push(c).filter(pred).map_values(path) =~= prev.filter(pred).map_values(
                path,
            ).push(path(c)));
        }
        let cur = shared_client_chunk_paths(shared, n);
        let filtered = shared.take(n as int).filter(pred);
        assert forall|i: int|
            0 <= i < n && (#[trigger] shared[i].extension matches Some(e) && e@ == "js"@)
                && shared[i].path_from_client_root is Some implies cur.contains(
            shared[i].path_from_client_root->0@,
        ) by {
            shared.take(n as int).lemma_filter_contains(pred, i);
            assert(shared.take(n as int)[i] == shared[i]);
            let k = choose|k: int| 0 <= k < filtered.len() && filtered[k] == shared[i];
            assert(cur[k] == path(shared[i]));
        }
    }
}

/// Nothing is missing for the first `n` entries exactly when each of them
/// has a list of client references, every reference in that list has
/// chunks, every client chunk of those references lies inside the app build
/// manifest's directory, and its server chunk lies inside the app paths
/// manifest's directory. In particular an entry whose list is present but
/// empty, with its server chunk path known, is never reported.
pub proof fn lemma_nothing_missing_iff_inputs_complete<C>(
    entries: Seq<AppEntry<u64>>,
    rsc_chunks: Seq<RscChunk<C>>,
    references_by_entry: Map<u64, Vec<u64>>,
    chunks: Map<u64, ClientReferenceChunks<C>>,
    n: nat,
)
    requires
        n <= entries.len(),
        n <= rsc_chunks.len(),
    ensures
        first_missing(entries, rsc_chunks, references_by_entry, chunks, n) is None <==> forall|
            i: int,
        |
            0 <= i < n ==> #[trigger] entry_has_what_it_needs(
                entries[i],
                rsc_chunks[i],
                references_by_entry,
                chunks,
            ),
        forall|i: int|
            0 <= i < n && references_by_entry.contains_key(#[trigger] entries[i].rsc_entry)
                && references_by_entry[entries[i].rsc_entry]@.len() == 0
                && rsc_chunks[i].path_from_manifest_dir is Some ==> entry_missing(
                entries[i],
                rsc_chunks[i],
                references_by_entry,
                chunks,
            ) is None,
    decreases n,
{
    assert forall|i: int| 0 <= i < n implies #[trigger] entry_has_what_it_needs(
        entries[i],
        rsc_chunks[i],
        references_by_entry,
        chunks,
    ) == (entry_missing(entries[i], rsc_chunks[i], references_by_entry, chunks) is None) by {
        lemma_entry_missing_iff_lacking(entries[i], rsc_chunks[i], references_by_entry, chunks);
    }
    if n > 0 {
        lemma_nothing_missing_iff_inputs_complete(
            entries,
            rsc_chunks,
            references_by_entry,
            chunks,
            (n - 1) as nat,
        );
        if first_missing(entries, rsc_chunks, references_by_entry, chunks, n) is None {
            assert forall|i: int| 0 <= i < n implies #[trigger] entry_has_what_it_needs(
                entries[i],
                rsc_chunks[i],
                references_by_entry,
                chunks,
            ) by {
                if i < n - 1 {
                    assert(entry_has_what_it_needs(
                        entries[i],
                        rsc_chunks[i],
                        references_by_entry,
                        chunks,
                    ));
                }
            }
        }
        if forall|i: int|
            0 <= i < n ==> #[trigger] entry_has_what_it_needs(
                entries[i],
                rsc_chunks[i],
                references_by_entry,
                chunks,
            ) {
            assert(entry_has_what_it_needs(
                entries[n - 1],
                rsc_chunks[n - 1],
                references_by_entry,
                chunks,
            ));
        }
    }
}

/// An entry has what the chunk bookkeeping needs of it: a list of client
/// references, chunks for each of them, client chunks inside the app build
/// manifest's directory, and a server chunk inside the app paths manifest's
/// directory.
pub open spec fn entry_has_what_it_needs<C>(
    entry: AppEntry<u64>,
    rsc_chunk: RscChunk<C>,
    references_by_entry: Map<u64, Vec<u64>>,
    chunks: Map<u64, ClientReferenceChunks<C>>,
) -> bool {
    &&& references_by_entry.contains_key(entry.rsc_entry)
    &&& forall|j: int|
        0 <= j < references_by_entry[entry.rsc_entry]@.len() ==> chunks.contains_key(
            #[trigger] references_by_entry[entry.rsc_entry]@[j],
        )
    &&& forall|j: int, k: int|
        0 <= j < references_by_entry[entry.rsc_entry]@.len() && 0 <= k
            < chunks[references_by_entry[entry.rsc_entry]@[j]].client_chunks@.len() ==> (
        #[trigger] chunks[references_by_entry[entry.rsc_entry]@[j]].client_chunks@[k]).path_from_manifest_dir is Some
    &&& rsc_chunk.path_from_manifest_dir is Some
}

proof fn lemma_entry_missing_iff_lacking<C>(
    entry: AppEntry<u64>,
    rsc_chunk: RscChunk<C>,
    references_by_entry: Map<u64, Vec<u64>>,
    chunks: Map<u64, ClientReferenceChunks<C>>,
)
    ensures
        entry_has_what_it_needs(entry, rsc_chunk, references_by_entry, chunks) == (entry_missing(
            entry,
            rsc_chunk,
            references_by_entry,
            chunks,
        ) is None),
{
}

/// The client runtime entries that the shared chunk holds are exactly those
/// that resolved, in order: every resolved entry is kept and nothing else.
pub proof fn lemma_present_values_are_the_resolved_ones<P>(options: Seq<Option<P>>, n: nat)
    requires
        n <= options.len(),
    ensures
        present_values(options, n) == options.take(n as int).filter(|o: Option<P>| o is Some).map_values(
            |o: Option<P>| o->0,
        ),
        forall|i: int|
            0 <= i < n && #[trigger] options[i] is Some ==> present_values(options, n).contains(
                options[i]->0,
            ),
    decreases n,
{
    let pred = |o: Option<P>| o is Some;
    let un = |o: Option<P>| o->0;
    if n == 0 {
        assert(options.take(0) =~= Seq::<Option<P>>::empty());
        reveal(Seq::filter);
        assert(options.take(0).filter(pred) =~= Seq::<Option<P>>::empty());
        assert(options.take(0).filter(pred).map_values(un) =~= Seq::<P>::empty());
    } else {
        lemma_present_values_are_the_resolved_ones(options, (n - 1) as nat);
        let prev = options.take(n - 1);
        let o = options[n - 1];
        assert(options.take(n as int) =~= prev.push(o));
        prev.lemma_filter_push(o, pred);
        if pred(o) {
            assert(prev.push(o).filter(pred).map_values(un) =~= prev.filter(pred).map_values(
                un,
            ).push(un(o)));
        }
        let cur = present_values(options, n);
        let filtered = options.take(n as int).filter(pred);
        assert forall|i: int| 0 <= i < n && #[trigger] options[i] is Some implies cur.contains(
            options[i]->0,
        ) by {
            options.take(n as int).lemma_filter_contains(pred, i);
            assert(options.take(n as int)[i] == options[i]);
            let k = choose|k: int| 0 <= k < filtered.len() && filtered[k] == options[i];
            assert(cur[k] == un(options[i]));
        }
    }
}

/// The manifest paths of the client chunks of the first `m` references: the
/// paths of each reference's client chunks, reference after reference.
proof fn lemma_reference_paths_flatten<C>(
    references: Seq<u64>,
    chunks: Map<u64, ClientReferenceChunks<C>>,
    m: nat,
)
    requires
        m <= references.len(),
    ensures
        reference_client_chunk_paths(references, chunks, m) == references.take(m as int).map_values(
            |r: u64|
                chunks[r].client_chunks@.map_values(
                    |c: ClientChunk<C>| c.path_from_manifest_dir->0@,
                ),
        ).flatten(),
    decreases m,
{
    let f = |r: u64|
        chunks[r].client_chunks@.map_values(|c: ClientChunk<C>| c.path_from_manifest_dir->0@);
    if m == 0 {
        assert(references.take(0).map_values(f) =~= Seq::<Seq<Seq<char>>>::empty());
    } else {
        lemma_reference_paths_flatten(references, chunks, (m - 1) as nat);
        let prev = references.take(m - 1).map_values(f);
        assert(references.take(m as int).map_values(f) =~= prev.push(f(references[m - 1])));
        prev.lemma_flatten_push(f(references[m - 1]));
        assert(client_chunk_paths(chunks[references[m - 1]].client_chunks@) =~= f(
            references[m - 1],
        ));
    }
}

/// The page that the app build manifest records for an app entry lists the
/// paths of the client chunks of each of its client references, reference
/// after reference, and then all the shared client chunk paths, whatever
/// the number of its references; where several entries share an original
/// name, the last of them is recorded.
pub proof fn lemma_recorded_page_lists_reference_chunks_then_shared<C>(
    pages: Map<Seq<char>, Seq<Seq<char>>>,
    entries: Seq<AppEntry<u64>>,
    references_by_entry: Map<u64, Vec<u64>>,
    chunks: Map<u64, ClientReferenceChunks<C>>,
    shared_paths: Seq<Seq<char>>,
    n: nat,
    i: int,
)
    requires
        n <= entries.len(),
        0 <= i < n,
        forall|j: int| i < j < n ==> #[trigger] entries[j].original_name@ != entries[i].original_name@,
    ensures
        pages_after(pages, entries, references_by_entry, chunks, shared_paths, n)[entries[i].original_name@]
            == references_by_entry[entries[i].rsc_entry]@.map_values(
            |r: u64|
                chunks[r].client_chunks@.map_values(
                    |c: ClientChunk<C>| c.path_from_manifest_dir->0@,
                ),
        ).flatten() + shared_paths,
{
    lemma_pages_record_last_entry(pages, entries, references_by_entry, chunks, shared_paths, n, i);
    let references = references_by_entry[entries[i].rsc_entry]@;
    lemma_reference_paths_flatten(references, chunks, references.len());
    assert(references.take(references.len() as int) =~= references);
}

} // verus!
