//! What the pool of evaluating processes is made of.
use vstd::pervasive::unreached;
use vstd::prelude::*;

verus! {

/// Which asset stands behind a name that the entry module refers to.
#[derive(Debug, Clone, Copy, PartialEq, Eq, Structural)]
pub enum InnerAsset {
    /// The module that is evaluated.
    Module,
    /// The runtime that evaluates it.
    Runtime,
}

/// The language of a module.
#[derive(Debug, Clone, Copy, PartialEq, Eq, Structural)]
pub enum EcmascriptModuleAssetType {
    Ecmascript,
    Typescript,
}

/// A transform that a module goes through before it is bundled.
#[derive(Debug, Clone, Copy, PartialEq, Eq, Structural)]
pub enum EcmascriptInputTransform {
    /// Takes the types out.
    TypeScript,
}

/// How a module is read.
#[derive(Debug)]
pub struct ModuleOptions {
    pub module_type: EcmascriptModuleAssetType,
    /// The transforms, in order.
    pub transforms: Vec<EcmascriptInputTransform>,
}

impl ModuleOptions {
    /// The module is TypeScript, and its types are taken out.
    pub open spec fn is_typescript(self) -> bool {
        &&& self.module_type == EcmascriptModuleAssetType::Typescript
        &&& self.transforms@ == seq![EcmascriptInputTransform::TypeScript]
    }
}

/// How a TypeScript module is read: by the TypeScript transform alone.
pub fn typescript_module() -> (options: ModuleOptions)
    ensures
        options.is_typescript(),
        options.module_type == EcmascriptModuleAssetType::Typescript,
        options.transforms@.len() == 1,
        options.transforms@[0] == EcmascriptInputTransform::TypeScript,
{
    let mut transforms: Vec<EcmascriptInputTransform> = Vec::new();
    transforms.push(EcmascriptInputTransform::TypeScript);
    assert(transforms@ =~= seq![EcmascriptInputTransform::TypeScript]);
    ModuleOptions { module_type: EcmascriptModuleAssetType::Typescript, transforms }
}

/// The assets from which the entrypoint of the processes is built, as names and
/// texts.
#[derive(Debug)]
pub struct EvaluatePool {
    /// The directory for chunks, in the output directory.
    pub chunk_root: String,
    /// The directory for assets, in the output directory.
    pub asset_root: String,
    /// The embedded file that holds the runtime.
    pub runtime: String,
    /// How the runtime is read.
    pub runtime_options: ModuleOptions,
    /// The file in the output directory that the processes start from.
    pub entrypoint: String,
    /// The path of the entry module, joined onto that of the runtime.
    pub entry_module: String,
    /// How the entry module is read.
    pub entry_options: ModuleOptions,
    /// The source text of the entry module.
    pub entry_source: String,
    /// The names that the entry module refers to.
    pub inner_assets: Vec<(String, InnerAsset)>,
}

/// The ending of a JavaScript file.
pub open spec fn js_suffix() -> Seq<char> {
    seq!['.', 'j', 's']
}

/// Whether a name ends in `.js`.
pub open spec fn is_js_name(name: Seq<char>) -> bool {
    js_suffix().is_suffix_of(name)
}

/// A name that ends in `.js`: the name itself if it does, else with that ending
/// appended.
pub open spec fn js_name(name: Seq<char>) -> Seq<char> {
    if is_js_name(name) {
        name
    } else {
        name + js_suffix()
    }
}

/// The name of the file that the processes start from, for a module whose file
/// has some name.
pub fn entrypoint_file_name(file_name: &str) -> (name: String)
    ensures
        name@ == js_name(file_name@),
        name@ == file_name@ || name@ == file_name@ + seq!['.', 'j', 's'],
        name@ == file_name@ <==> file_name@.len() >= 3 && file_name@[file_name@.len() - 3] == '.'
            && file_name@[file_name@.len() - 2] == 'j' && file_name@[file_name@.len() - 1] == 's',
{
    proof {
        law_entrypoint_by_ending(file_name@);
    }
    let len = file_name.unicode_len();
    let mut name = file_name.to_string();
    if len >= 3 && file_name.get_char(len - 3) == '.' && file_name.get_char(len - 2) == 'j'
        && file_name.get_char(len - 1) == 's' {
        assert(js_suffix() =~= file_name@.skip(len - 3));
    } else {
        name.append(".js");
        proof {
            reveal_strlit(".js");
            assert(".js"@ =~= js_suffix());
            if is_js_name(file_name@) {
                assert(js_suffix()[0] == '.' && js_suffix()[1] == 'j' && js_suffix()[2] == 's');
            }
        }
    }
    name
}

/// The assets from which the entrypoint is built, for a module whose file has
/// some name. The entry module runs the evaluated module in the runtime.
pub fn get_evaluate_pool(file_name: &str) -> (pool: EvaluatePool)
    ensures
        pool.chunk_root@ == "chunks"@,
        pool.asset_root@ == "assets"@,
        pool.runtime@ == "ipc/evaluate.ts"@,
        pool.runtime_options.is_typescript(),
        pool.runtime_options.module_type == EcmascriptModuleAssetType::Typescript,
        pool.runtime_options.transforms@.len() == 1,
        pool.runtime_options.transforms@[0] == EcmascriptInputTransform::TypeScript,
        pool.entrypoint@ == js_name(file_name@),
        pool.entrypoint@ == file_name@ || pool.entrypoint@ == file_name@ + seq!['.', 'j', 's'],
        pool.entrypoint@ == file_name@ <==> file_name@.len() >= 3 && file_name@[file_name@.len() - 3] == '.'
            && file_name@[file_name@.len() - 2] == 'j' && file_name@[file_name@.len() - 1] == 's',
        pool.entry_module@ == "evaluate.js"@,
        pool.entry_options.is_typescript(),
        pool.entry_options.module_type == EcmascriptModuleAssetType::Typescript,
        pool.entry_options.transforms@.len() == 1,
        pool.entry_options.transforms@[0] == EcmascriptInputTransform::TypeScript,
        pool.entry_source@
            == "import { run } from 'RUNTIME'; run((...args) => (require('INNER').default(...args)))"@,
        pool.inner_assets@.len() == 2,
        pool.inner_assets@[0].0@ == "INNER"@,
        pool.inner_assets@[0].1 == InnerAsset::Module,
        pool.inner_assets@[1].0@ == "RUNTIME"@,
        pool.inner_assets@[1].1 == InnerAsset::Runtime,
{
    let mut inner_assets: Vec<(String, InnerAsset)> = Vec::new();
    inner_assets.push(("INNER".to_string(), InnerAsset::Module));
    inner_assets.push(("RUNTIME".to_string(), InnerAsset::Runtime));
    EvaluatePool {
        chunk_root: "chunks".to_string(),
        asset_root: "assets".to_string(),
        runtime: "ipc/evaluate.ts".to_string(),
        runtime_options: typescript_module(),
        entrypoint: entrypoint_file_name(file_name),
        entry_module: "evaluate.js".to_string(),
        entry_options: typescript_module(),
        entry_source:
            "import { run } from 'RUNTIME'; run((...args) => (require('INNER').default(...args)))".to_string(),
        inner_assets,
    }
}

/// What a pool of processes is started with. `S` is the type of a path on disk.
#[derive(Debug)]
pub struct PoolArguments<S> {
    pub cwd: S,
    pub entrypoint: S,
    /// The environment of the processes, as names and values.
    pub env: Vec<(String, String)>,
    pub concurrency: usize,
    pub debug: bool,
}

/// What a pool of processes is started with: as many of them as the machine can
/// run at once, or one if that is not known, with an empty environment. Both
/// paths have to be on disk.
pub fn pool_arguments<S>(
    cwd: Option<S>,
    entrypoint: Option<S>,
    available_parallelism: Option<usize>,
    debug: bool,
) -> (arguments: PoolArguments<S>)
    requires
        cwd is Some,
        entrypoint is Some,
    ensures
        Some(arguments.cwd) == cwd,
        Some(arguments.entrypoint) == entrypoint,
        arguments.env@.len() == 0,
        arguments.concurrency == (match available_parallelism {
            Some(n) => n,
            None => 1,
        }),
        arguments.debug == debug,
{
    match (cwd, entrypoint) {
        (Some(cwd), Some(entrypoint)) => PoolArguments {
            cwd,
            entrypoint,
            env: Vec::new(),
            concurrency: available_parallelism.unwrap_or(1),
            debug,
        },
        _ => unreached(),
    }
}

/// The entrypoint always ends in `.js`, and begins with the name that it was
/// made from. A name that ends so already is kept.
pub proof fn law_entrypoint_is_js(name: Seq<char>)
    ensures
        is_js_name(js_name(name)),
        name.is_prefix_of(js_name(name)),
        js_name(js_name(name)) == js_name(name),
{
    if !is_js_name(name) {
        let made = name + js_suffix();
        assert(js_suffix() =~= made.skip(name.len() as int));
        assert(name =~= made.take(name.len() as int));
    }
}


/// A name is kept exactly when its last three characters are `.js`. Any other name
/// is kept in front, and followed by these three characters and no others.
pub proof fn law_entrypoint_by_ending(name: Seq<char>)
    ensures
        is_js_name(name) <==> name.len() >= 3 && name[name.len() - 3] == '.' && name[name.len() - 2]
            == 'j' && name[name.len() - 1] == 's',
        js_name(name) == if name.len() >= 3 && name[name.len() - 3] == '.' && name[name.len() - 2]
            == 'j' && name[name.len() - 1] == 's' {
            name
        } else {
            name.push('.').push('j').push('s')
        },
        js_name(name).len() == name.len() || js_name(name).len() == name.len() + 3,
        js_name(name) == name <==> is_js_name(name),
{
    if name.len() >= 3 && name[name.len() - 3] == '.' && name[name.len() - 2] == 'j'
        && name[name.len() - 1] == 's' {
        assert(js_suffix() =~= name.skip(name.len() - 3));
    } else {
        if is_js_name(name) {
            let last = name.skip(name.len() - 3);
            assert(js_suffix() =~= last);
            assert(last[0] == '.' && last[1] == 'j' && last[2] == 's');
        }
        assert(name + js_suffix() =~= name.push('.').push('j').push('s'));
    }
}

/// Two names without the ending give different entrypoints unless they are the
/// same name.
pub proof fn law_entrypoints_differ(a: Seq<char>, b: Seq<char>)
    requires
        is_js_name(a) == is_js_name(b),
        a != b,
    ensures
        js_name(a) != js_name(b),
{
    law_entrypoint_by_ending(a);
    law_entrypoint_by_ending(b);
    if !is_js_name(a) && js_name(a) == js_name(b) {
        assert(a =~= js_name(a).take(a.len() as int));
        assert(b =~= js_name(b).take(b.len() as int));
    }
}

/// A module is TypeScript exactly when its language is, and the TypeScript
/// transform is its only one.
pub proof fn law_typescript_modules(options: ModuleOptions)
    ensures
        options.is_typescript() <==> options.module_type == EcmascriptModuleAssetType::Typescript
            && options.transforms@.len() == 1 && options.transforms@[0]
            == EcmascriptInputTransform::TypeScript,
{
    if options.transforms@.len() == 1 {
        assert(options.transforms@ =~= seq![options.transforms@[0]]);
    }
}

}
