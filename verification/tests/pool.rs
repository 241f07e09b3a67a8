use turbopack_node::issue::{BuildDependencyIssue, EvaluationIssue, IssueSeverity};
use turbopack_node::pool::{
    entrypoint_file_name, get_evaluate_pool, pool_arguments, EcmascriptInputTransform,
    EcmascriptModuleAssetType, InnerAsset,
};

#[test]
fn entrypoint_ends_in_js() {
    assert_eq!(entrypoint_file_name("a.js"), "a.js");
    assert_eq!(entrypoint_file_name(".js"), ".js");
    assert_eq!(entrypoint_file_name("a.ts"), "a.ts.js");
    assert_eq!(entrypoint_file_name("a.mjs"), "a.mjs.js");
    assert_eq!(entrypoint_file_name("js"), "js.js");
    assert_eq!(entrypoint_file_name(""), ".js");
    assert_eq!(entrypoint_file_name("\u{e9}.js"), "\u{e9}.js");
    assert_eq!(entrypoint_file_name(&entrypoint_file_name("a.ts")), "a.ts.js");
}

#[test]
fn entrypoint_is_built_from_module_and_runtime() {
    let pool = get_evaluate_pool("config.ts");
    assert_eq!(pool.chunk_root, "chunks");
    assert_eq!(pool.asset_root, "assets");
    assert_eq!(pool.runtime, "ipc/evaluate.ts");
    for options in [&pool.runtime_options, &pool.entry_options] {
        assert_eq!(options.module_type, EcmascriptModuleAssetType::Typescript);
        assert_eq!(options.transforms, vec![EcmascriptInputTransform::TypeScript]);
    }
    assert_eq!(pool.entrypoint, "config.ts.js");
    assert_eq!(pool.entry_module, "evaluate.js");
    assert_eq!(
        pool.entry_source,
        "import { run } from 'RUNTIME'; run((...args) => \
         (require('INNER').default(...args)))"
    );
    assert_eq!(
        pool.inner_assets,
        vec![
            ("INNER".to_string(), InnerAsset::Module),
            ("RUNTIME".to_string(), InnerAsset::Runtime),
        ]
    );
}

#[test]
fn pool_runs_as_much_as_the_machine_can() {
    let arguments = pool_arguments(Some("cwd"), Some("entry.js"), Some(8), true);
    assert_eq!(arguments.cwd, "cwd");
    assert_eq!(arguments.entrypoint, "entry.js");
    assert!(arguments.env.is_empty());
    assert_eq!(arguments.concurrency, 8);
    assert!(arguments.debug);
    assert_eq!(pool_arguments(Some(1), Some(2), None, false).concurrency, 1);
}

#[test]
fn evaluation_issue_is_described() {
    let issue = EvaluationIssue { context_path: 3, error: "failed" };
    assert_eq!(issue.title(), "Error evaluating Node.js code");
    assert_eq!(issue.category(), "build");
    assert_eq!(issue.context(), 3);
}

#[test]
fn build_dependency_issue_is_described() {
    let issue = BuildDependencyIssue { context_path: 3, path: 4 };
    assert_eq!(issue.severity(), IssueSeverity::Warning);
    assert_eq!(issue.title(), "Build dependencies are not yet supported");
    assert_eq!(issue.category(), "build");
    assert_eq!(issue.context(), 3);
    assert_eq!(
        issue.description("[project]/a.js"),
        "The file at [project]/a.js is a build dependency, which is not yet implemented.
Changing this file or any dependency will not be recognized and might require restarting the server"
    );
}
