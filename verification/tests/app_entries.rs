use std::collections::HashMap;

use next_build::app_entries::{
    check_app_entries_chunks_inputs, compute_app_entries_chunks, get_app_entries,
    get_app_shared_client_chunk, rsc_chunk_path, AppEntries, AppEntry, AppEntryJob,
    AppStructure, ClientChunk, NextMode, ResolutionContext, RuntimeEnv, ClientReferenceChunks, Entrypoint, MissingChunkInput, RscChunk,
    SharedClientChunk, TransitionKind,
};
use next_build::manifest::{AppBuildManifest, AppPathsManifest, BuildManifest};

fn s(x: &str) -> String {
    x.to_string()
}

fn entry(pathname: &str, original_name: &str, rsc_entry: u64) -> AppEntry<u64> {
    AppEntry { pathname: s(pathname), original_name: s(original_name), rsc_entry }
}

fn client_chunk(chunk: u64, path: Option<&str>) -> ClientChunk<u64> {
    ClientChunk { chunk, path_from_manifest_dir: path.map(s) }
}

fn shared_chunk(chunk: u64, ext: Option<&str>, path: Option<&str>) -> SharedClientChunk<u64> {
    SharedClientChunk { chunk, extension: ext.map(s), path_from_client_root: path.map(s) }
}

fn rsc(chunk: u64, path: Option<&str>) -> RscChunk<u64> {
    RscChunk { chunk, path_from_manifest_dir: path.map(s) }
}

struct Fixture {
    entries: AppEntries<u64, ()>,
    refs: HashMap<u64, Vec<u64>>,
    chunks: HashMap<u64, ClientReferenceChunks<u64>>,
    shared: Vec<SharedClientChunk<u64>>,
    rsc_chunks: Vec<RscChunk<u64>>,
}

fn fixture() -> Fixture {
    let entries = AppEntries {
        entries: vec![entry("/", "/page", 10), entry("/about", "/about/page", 11)],
        rsc_runtime_entries: (),
        client_runtime_entries: (),
    };
    let mut refs = HashMap::new();
    refs.insert(10, vec![100, 101]);
    refs.insert(11, vec![101]);
    let mut chunks = HashMap::new();
    chunks.insert(
        100,
        ClientReferenceChunks {
            client_chunks: vec![client_chunk(1000, Some("static/a.js"))],
            ssr_chunks: vec![5000],
        },
    );
    chunks.insert(
        101,
        ClientReferenceChunks {
            client_chunks: vec![
                client_chunk(1001, Some("static/b.js")),
                client_chunk(1002, Some("static/c.css")),
            ],
            ssr_chunks: vec![],
        },
    );
    let shared = vec![
        shared_chunk(1, Some("js"), Some("static/main.js")),
        shared_chunk(2, Some("css"), Some("static/main.css")),
        shared_chunk(3, None, Some("static/noext")),
        shared_chunk(4, Some("js"), None),
    ];
    let rsc_chunks = vec![
        rsc(20, Some("server/app/page.js")),
        rsc(21, Some("server/app/about/page.js")),
    ];
    Fixture { entries, refs, chunks, shared, rsc_chunks }
}

#[test]
fn rsc_chunk_path_is_under_server_app() {
    assert_eq!(rsc_chunk_path("/page"), "server/app//page.js");
    assert_eq!(rsc_chunk_path("about/page"), "server/app/about/page.js");
    assert_eq!(rsc_chunk_path(""), "server/app/.js");
}

#[test]
fn compute_records_chunks_and_manifests() {
    let f = fixture();
    let mut app_build_manifest = AppBuildManifest::new();
    let mut build_manifest = BuildManifest::new();
    build_manifest.root_main_files.push(s("earlier.js"));
    let mut app_paths_manifest = AppPathsManifest::new();
    let mut all_chunks = vec![0u64];
    assert_eq!(
        check_app_entries_chunks_inputs(&f.entries, &f.refs, &f.chunks, &f.rsc_chunks),
        Ok(())
    );
    compute_app_entries_chunks(
        &f.entries,
        &f.refs,
        &f.chunks,
        &f.shared,
        &f.rsc_chunks,
        &mut app_build_manifest,
        &mut build_manifest,
        &mut app_paths_manifest,
        &mut all_chunks,
    );
    assert_eq!(all_chunks, vec![0, 1, 2, 3, 4, 20, 21]);
    assert_eq!(build_manifest.root_main_files, vec![s("earlier.js"), s("static/main.js")]);
    assert_eq!(
        app_build_manifest.pages.get(&s("/page")),
        Some(&vec![s("static/a.js"), s("static/b.js"), s("static/c.css"), s("static/main.js")])
    );
    assert_eq!(
        app_build_manifest.pages.get(&s("/about/page")),
        Some(&vec![s("static/b.js"), s("static/c.css"), s("static/main.js")])
    );
    assert_eq!(app_build_manifest.pages.len(), 2);
    assert_eq!(
        app_paths_manifest.node_server_app_paths.pages.get(&s("/page")),
        Some(&s("server/app/page.js"))
    );
    assert_eq!(
        app_paths_manifest.node_server_app_paths.pages.get(&s("/about/page")),
        Some(&s("server/app/about/page.js"))
    );
}

#[test]
fn compute_with_no_entries_records_only_shared_chunks() {
    let f = fixture();
    let entries: AppEntries<u64, ()> =
        AppEntries { entries: vec![], rsc_runtime_entries: (), client_runtime_entries: () };
    let mut app_build_manifest = AppBuildManifest::new();
    let mut build_manifest = BuildManifest::new();
    let mut app_paths_manifest = AppPathsManifest::new();
    let mut all_chunks = vec![];
    compute_app_entries_chunks(
        &entries,
        &f.refs,
        &f.chunks,
        &f.shared,
        &vec![],
        &mut app_build_manifest,
        &mut build_manifest,
        &mut app_paths_manifest,
        &mut all_chunks,
    );
    assert_eq!(all_chunks, vec![1, 2, 3, 4]);
    assert_eq!(build_manifest.root_main_files, vec![s("static/main.js")]);
    assert_eq!(app_build_manifest.pages.len(), 0);
    assert_eq!(app_paths_manifest.node_server_app_paths.pages.len(), 0);
}

#[test]
fn compute_records_the_last_entry_of_a_shared_name() {
    let mut f = fixture();
    f.entries.entries = vec![entry("/", "/page", 10), entry("/other", "/page", 11)];
    let mut app_build_manifest = AppBuildManifest::new();
    app_build_manifest.pages.insert(s("/kept"), vec![s("kept.js")]);
    let mut build_manifest = BuildManifest::new();
    let mut app_paths_manifest = AppPathsManifest::new();
    let mut all_chunks = vec![];
    compute_app_entries_chunks(
        &f.entries,
        &f.refs,
        &f.chunks,
        &f.shared,
        &f.rsc_chunks,
        &mut app_build_manifest,
        &mut build_manifest,
        &mut app_paths_manifest,
        &mut all_chunks,
    );
    assert_eq!(app_build_manifest.pages.len(), 2);
    assert_eq!(app_build_manifest.pages.get(&s("/kept")), Some(&vec![s("kept.js")]));
    assert_eq!(
        app_build_manifest.pages.get(&s("/page")),
        Some(&vec![s("static/b.js"), s("static/c.css"), s("static/main.js")])
    );
    assert_eq!(
        app_paths_manifest.node_server_app_paths.pages.get(&s("/page")),
        Some(&s("server/app/about/page.js"))
    );
}

#[test]
fn check_reports_missing_client_references() {
    let mut f = fixture();
    f.refs.remove(&11);
    assert_eq!(
        check_app_entries_chunks_inputs(&f.entries, &f.refs, &f.chunks, &f.rsc_chunks),
        Err(MissingChunkInput::ClientReferences)
    );
}

#[test]
fn check_reports_missing_reference_chunks() {
    let mut f = fixture();
    f.chunks.remove(&100);
    assert_eq!(
        check_app_entries_chunks_inputs(&f.entries, &f.refs, &f.chunks, &f.rsc_chunks),
        Err(MissingChunkInput::ClientReferenceChunks)
    );
}

#[test]
fn check_reports_a_client_chunk_outside_the_manifest_dir() {
    let mut f = fixture();
    f.chunks.get_mut(&101).unwrap().client_chunks[1].path_from_manifest_dir = None;
    assert_eq!(
        check_app_entries_chunks_inputs(&f.entries, &f.refs, &f.chunks, &f.rsc_chunks),
        Err(MissingChunkInput::ClientChunkPath)
    );
}

#[test]
fn check_reports_a_server_chunk_outside_the_manifest_dir() {
    let mut f = fixture();
    f.rsc_chunks[1].path_from_manifest_dir = None;
    assert_eq!(
        check_app_entries_chunks_inputs(&f.entries, &f.refs, &f.chunks, &f.rsc_chunks),
        Err(MissingChunkInput::RscChunkPath)
    );
}

#[test]
fn check_reports_what_is_missing_first() {
    let mut f = fixture();
    // the first entry lacks a server chunk path, the second its references
    f.rsc_chunks[0].path_from_manifest_dir = None;
    f.refs.remove(&11);
    assert_eq!(
        check_app_entries_chunks_inputs(&f.entries, &f.refs, &f.chunks, &f.rsc_chunks),
        Err(MissingChunkInput::RscChunkPath)
    );
    // within an entry, missing chunks come before paths outside the directory
    let mut g = fixture();
    g.chunks.get_mut(&100).unwrap().client_chunks[0].path_from_manifest_dir = None;
    g.chunks.remove(&101);
    assert_eq!(
        check_app_entries_chunks_inputs(&g.entries, &g.refs, &g.chunks, &g.rsc_chunks),
        Err(MissingChunkInput::ClientReferenceChunks)
    );
}

#[test]
fn no_app_directory_means_no_entries() {
    assert!(get_app_entries::<u32, u32, u32>(None).is_none());
}

#[test]
fn app_entries_follow_the_entrypoints_then_the_favicon() {
    let app = AppStructure {
        entrypoints: vec![
            (s("/"), Entrypoint::AppPage { loader_tree: 1u32 }),
            (s("/api/hello"), Entrypoint::AppRoute { path: 2u32 }),
            (s("/about"), Entrypoint::AppPage { loader_tree: 3u32 }),
        ],
        favicon: Some(9u32),
    };
    let plan = get_app_entries(Some(&app)).unwrap();
    assert_eq!(plan.jobs.len(), 4);
    assert!(matches!(&plan.jobs[0], AppEntryJob::Page { pathname, loader_tree: 1 } if pathname == "/"));
    assert!(matches!(&plan.jobs[1], AppEntryJob::Route { pathname, path: 2 } if pathname == "/api/hello"));
    assert!(matches!(&plan.jobs[2], AppEntryJob::Page { pathname, loader_tree: 3 } if pathname == "/about"));
    assert!(matches!(&plan.jobs[3], AppEntryJob::Favicon { favicon: 9 }));
    assert_eq!(
        plan.transitions,
        vec![
            (s("next-ecmascript-client-reference"), TransitionKind::EcmascriptClientReference),
            (s("next-dynamic"), TransitionKind::Dynamic),
        ]
    );
    assert!(plan.rsc_context.client_transition);
    assert_eq!(
        plan.rsc_context.ecmascript_client_reference_transition_name,
        Some(s("next-ecmascript-client-reference"))
    );
    assert_eq!(plan.mode, NextMode::Build);
    assert_eq!(plan.server_runtime_entries_env, RuntimeEnv::Process);
    assert!(!plan.server_runtime_entries_context.client_transition);
    assert_eq!(plan.server_runtime_entries_context.ecmascript_client_reference_transition_name, None);
    assert_eq!(plan.client_runtime_entries_env, RuntimeEnv::ProcessWithConfig);
    assert_eq!(plan.server_runtime_entries_resolved_in, ResolutionContext::Rsc);
    assert_eq!(plan.client_runtime_entries_resolved_in, ResolutionContext::Client);
}

#[test]
fn app_without_favicon_has_one_entry_per_entrypoint() {
    let app: AppStructure<u32, u32, u32> = AppStructure {
        entrypoints: vec![(s("/r"), Entrypoint::AppRoute { path: 5 })],
        favicon: None,
    };
    let plan = get_app_entries(Some(&app)).unwrap();
    assert_eq!(plan.jobs.len(), 1);
    assert!(matches!(&plan.jobs[0], AppEntryJob::Route { pathname, path: 5 } if pathname == "/r"));
    let empty: AppStructure<u32, u32, u32> = AppStructure { entrypoints: vec![], favicon: None };
    assert_eq!(get_app_entries(Some(&empty)).unwrap().jobs.len(), 0);
}

#[test]
fn shared_client_chunk_keeps_the_resolved_entries_in_order() {
    assert_eq!(get_app_shared_client_chunk(&vec![Some(1u32), None, Some(3), None]), vec![1, 3]);
    assert_eq!(get_app_shared_client_chunk::<u32>(&vec![None, None]), Vec::<u32>::new());
    assert_eq!(get_app_shared_client_chunk::<u32>(&vec![]), Vec::<u32>::new());
}

#[test]
fn ssr_chunks_reach_no_record() {
    let run = |f: &Fixture| {
        let mut app_build_manifest = AppBuildManifest::new();
        let mut build_manifest = BuildManifest::new();
        let mut app_paths_manifest = AppPathsManifest::new();
        let mut all_chunks = vec![];
        compute_app_entries_chunks(
            &f.entries,
            &f.refs,
            &f.chunks,
            &f.shared,
            &f.rsc_chunks,
            &mut app_build_manifest,
            &mut build_manifest,
            &mut app_paths_manifest,
            &mut all_chunks,
        );
        let pages: Vec<(String, Vec<String>)> = (0..app_build_manifest.pages.len())
            .map(|i| (app_build_manifest.pages.keys()[i].clone(), app_build_manifest.pages.value_at(i).clone()))
            .collect();
        let paths: Vec<(String, String)> = (0..app_paths_manifest.node_server_app_paths.pages.len())
            .map(|i| {
                (
                    app_paths_manifest.node_server_app_paths.pages.keys()[i].clone(),
                    app_paths_manifest.node_server_app_paths.pages.value_at(i).clone(),
                )
            })
            .collect();
        (all_chunks, build_manifest.root_main_files, pages, paths)
    };
    let f = fixture();
    let mut g = fixture();
    g.chunks.get_mut(&100).unwrap().ssr_chunks = vec![7, 8, 9];
    g.chunks.get_mut(&101).unwrap().ssr_chunks = vec![6];
    assert_eq!(run(&f), run(&g));
}

#[test]
fn compute_only_appends_and_keeps_key_order() {
    let f = fixture();
    let mut app_build_manifest = AppBuildManifest::new();
    app_build_manifest.pages.insert(s("/about/page"), vec![s("old.js")]);
    app_build_manifest.pages.insert(s("/z"), vec![s("z.js")]);
    let mut build_manifest = BuildManifest::new();
    build_manifest.root_main_files = vec![s("a.js"), s("b.js")];
    let mut app_paths_manifest = AppPathsManifest::new();
    app_paths_manifest.node_server_app_paths.pages.insert(s("/y"), s("y.js"));
    let mut all_chunks = vec![8u64, 9];
    compute_app_entries_chunks(
        &f.entries,
        &f.refs,
        &f.chunks,
        &f.shared,
        &f.rsc_chunks,
        &mut app_build_manifest,
        &mut build_manifest,
        &mut app_paths_manifest,
        &mut all_chunks,
    );
    assert_eq!(&all_chunks[..2], &[8, 9]);
    assert_eq!(&build_manifest.root_main_files[..2], &[s("a.js"), s("b.js")]);
    assert_eq!(app_build_manifest.pages.keys(), &vec![s("/about/page"), s("/z"), s("/page")]);
    assert_eq!(
        app_paths_manifest.node_server_app_paths.pages.keys(),
        &vec![s("/y"), s("/page"), s("/about/page")]
    );
}
