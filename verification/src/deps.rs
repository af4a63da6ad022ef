//! Trusted boundary to the outside crates the pipeline leans on: the source
//! transform library (bundling and minification), raw-DEFLATE compression,
//! base85 encoding and LZ4 compression. Each wrapper's contract states what
//! the outside call returns; everything built on top of them is verified.

use vstd::prelude::*;

use crate::structs::{TransformError, plain_component, strs_view};
use darklua_core::rules::{
    ComputeExpression, FilterAfterEarlyReturn, GroupLocalAssignment, RemoveComments,
    RemoveEmptyDo, RemoveFunctionCallParens, RemoveIfExpression, RemoveMethodDefinition,
    RemoveNilDeclaration, RemoveSpaces, RemoveTypes, RemoveUnusedVariable, RemoveUnusedWhile,
    RenameVariables, Rule,
};

verus! {

/// Declares the transform library's configuration type, so values of it can
/// pass through signatures; its contents stay opaque.
#[verifier::external_type_specification]
#[verifier::external_body]
pub struct ExConfiguration(darklua_core::Configuration);

/// Declares the transform library's in-memory resource registry, held inside
/// `ModuleStore`; its contents are modelled by `store_map`.
#[verifier::external_type_specification]
#[verifier::external_body]
pub struct ExResources(darklua_core::Resources);

/// The bytes of the raw-DEFLATE compression of the input at the highest
/// compression level.
pub uninterp spec fn deflate_of(bytes: Seq<u8>) -> Seq<u8>;

/// The base85 encoding of the input bytes.
pub uninterp spec fn base85_of(bytes: Seq<u8>) -> Seq<char>;

/// The LZ4 block compression of the input bytes.
pub uninterp spec fn lz4_of(bytes: Seq<u8>) -> Seq<u8>;

/// The source text after the fixed minify rule chain, with comments that
/// match the given exception pattern kept.
pub uninterp spec fn minified_of(content: Seq<char>, comment_exception: Seq<char>) -> Seq<char>;

/// Whether the minify rule chain accepts the source: parsing and every rule
/// succeed. A function of the text and the exception alone.
pub uninterp spec fn minify_accepts(content: Seq<char>, comment_exception: Seq<char>) -> bool;

/// The source text after bundling: `entry`, processed against the registered
/// modules, with the excluded module names left as runtime requires.
pub uninterp spec fn bundled_of(
    modules: Map<Seq<char>, Seq<char>>,
    entry_name: Seq<char>,
    entry: Seq<char>,
    excludes: Seq<Seq<char>>,
) -> Seq<char>;

/// Whether the bundler accepts the entry against the registered modules:
/// parsing and require resolution succeed. A function of the registry, the
/// entry and the exclusions alone.
pub uninterp spec fn bundle_accepts(
    modules: Map<Seq<char>, Seq<char>>,
    entry_name: Seq<char>,
    entry: Seq<char>,
    excludes: Seq<Seq<char>>,
) -> bool;

/// Relies on flate2's `DeflateEncoder` at `Compression::best()`: raw-DEFLATE
/// compression of the input, a function of the bytes alone. The sink is a
/// `Vec<u8>`, whose `Write` implementation std documents as never failing,
/// so the encoder cannot report an error.
#[verifier::external_body]
pub(crate) fn deflate_best(data: &[u8]) -> (r: Vec<u8>)
    ensures
        r@ == deflate_of(data@),
{
    let mut enc = flate2::write::DeflateEncoder::new(Vec::new(), flate2::Compression::best());
    let _ = std::io::Write::write_all(&mut enc, data);
    enc.finish().unwrap_or_default()
}

/// Relies on base85::encode (RFC 1924): the result is a function of the
/// bytes alone, and every output character comes from the crate's fixed
/// alphabet of printable ASCII characters, which holds neither a double
/// quote nor a backslash nor a space.
#[verifier::external_body]
pub(crate) fn b85_encode(data: &[u8]) -> (r: String)
    ensures
        r@ == base85_of(data@),
        forall|i: int| 0 <= i < r@.len() ==> r@[i] != '"' && '!' <= r@[i] <= '~',
{
    base85::encode(data)
}

/// Relies on lz4_flex::compress: LZ4 block compression without a size
/// prefix, a function of the bytes alone.
#[verifier::external_body]
pub(crate) fn lz4_compress(data: &[u8]) -> (r: Vec<u8>)
    ensures
        r@ == lz4_of(data@),
{
    lz4_flex::compress(data)
}

/// Relies on darklua_core's rule constructors: the opening of the fixed
/// minify rule chain, with the comment rule keeping comments that start
/// with the given exception.
#[verifier::external_body]
fn minify_rules_front(comment_exception: &str) -> darklua_core::Configuration {
    darklua_core::Configuration::empty()
        .with_rule(Box::new(RemoveMethodDefinition::default()) as Box<dyn Rule>)
        .with_rule(Box::new(RemoveFunctionCallParens::default()) as Box<dyn Rule>)
        .with_rule(Box::new(RemoveComments::default().with_exception(comment_exception)) as Box<dyn Rule>)
        .with_rule(Box::new(RemoveTypes::default()) as Box<dyn Rule>)
        .with_rule(Box::new(ComputeExpression::default()) as Box<dyn Rule>)
}

/// Relies on darklua_core's rule constructors: the middle of the fixed
/// minify rule chain.
#[verifier::external_body]
fn minify_rules_mid(cfg: darklua_core::Configuration) -> darklua_core::Configuration {
    cfg.with_rule(Box::new(RemoveEmptyDo::default()) as Box<dyn Rule>)
        .with_rule(Box::new(RemoveNilDeclaration::default()) as Box<dyn Rule>)
        .with_rule(Box::new(RemoveSpaces::default()) as Box<dyn Rule>)
        .with_rule(Box::new(RemoveUnusedVariable::default()) as Box<dyn Rule>)
        .with_rule(Box::new(RemoveUnusedWhile::default()) as Box<dyn Rule>)
}

/// Relies on darklua_core's rule constructors: the tail of the fixed minify
/// rule chain.
#[verifier::external_body]
fn minify_rules_back(cfg: darklua_core::Configuration) -> darklua_core::Configuration {
    cfg.with_rule(Box::new(RenameVariables::default().with_function_names()) as Box<dyn Rule>)
        .with_rule(Box::new(GroupLocalAssignment::default()) as Box<dyn Rule>)
        .with_rule(Box::new(RemoveIfExpression::default()) as Box<dyn Rule>)
        .with_rule(Box::new(FilterAfterEarlyReturn::default()) as Box<dyn Rule>)
}

/// The full minify rule chain: method-call sugar, redundant call parens,
/// comments (keeping the exception), type annotations, constant folding,
/// empty do-blocks, nil declarations, whitespace, unused variables, unused
/// while-loops, identifier renaming, local-assignment grouping,
/// if-expressions, and filter-after-early-return.
pub fn get_darklua_cfg(comment_exception: &str) -> darklua_core::Configuration {
    minify_rules_back(minify_rules_mid(minify_rules_front(comment_exception)))
}

/// Relies on darklua_core::process with the fixed minify rule chain over an
/// in-memory resource: acceptance and the output text are functions of the
/// input text and the comment exception alone (the in-memory registry never
/// fails), and an unparseable input surfaces as an error.
#[verifier::external_body]
pub(crate) fn run_minify(content: &str, comment_exception: &str) -> (r: Result<
    String,
    TransformError,
>)
    ensures
        r is Ok <==> minify_accepts(content@, comment_exception@),
        r is Ok ==> r->Ok_0@ == minified_of(content@, comment_exception@),
{
    let cfg = get_darklua_cfg(comment_exception);
    let res = darklua_core::Resources::from_memory();
    if res.write("input.lua", content).is_err() {
        return Err(TransformError::Resource);
    }
    let opts = darklua_core::Options::new(std::path::Path::new("input.lua")).with_configuration(
        cfg,
    );
    match darklua_core::process(&res, opts) {
        Ok(tree) => match tree.result() {
            Ok(()) => res.get("input.lua").map_err(|_| TransformError::Resource),
            Err(_) => Err(TransformError::Process),
        },
        Err(_) => Err(TransformError::Process),
    }
}

/// The in-memory module registry handed to the bundler.
pub struct ModuleStore {
    resources: darklua_core::Resources,
}

/// The module sources registered so far, keyed by their registered names.
pub uninterp spec fn store_map(s: ModuleStore) -> Map<Seq<char>, Seq<char>>;

/// Relies on darklua_core::Resources::from_memory: a fresh registry holds no
/// modules.
#[verifier::external_body]
pub(crate) fn store_new() -> (r: ModuleStore)
    ensures
        store_map(r) =~= Map::empty(),
{
    ModuleStore { resources: darklua_core::Resources::from_memory() }
}

/// Relies on darklua_core::Resources::write: registers one module source
/// under the given name, replacing any earlier entry of that name. darklua
/// keys the registry by the normalized path, so the name must be a plain
/// component that normalization leaves unchanged; an in-memory write never
/// fails.
#[verifier::external_body]
pub(crate) fn store_add(s: &mut ModuleStore, name: &str, content: &str) -> (r: Result<
    (),
    TransformError,
>)
    requires
        plain_component(name@),
    ensures
        r is Ok,
        store_map(*final(s)) == store_map(*old(s)).insert(name@, content@),
{
    s.resources.write(name, content).map_err(|_| TransformError::Resource)
}

/// Relies on darklua_core::process with a path-mode bundle configuration:
/// acceptance and the bundled output are functions of the registered
/// modules, the entry name, the entry text and the excluded module names
/// alone. The entry is written into the same normalized-key registry, so its
/// name must be a plain component; an unparseable module or entry surfaces
/// as an error.
#[verifier::external_body]
pub(crate) fn store_bundle(
    s: &mut ModuleStore,
    entry_name: &str,
    entry: &str,
    excludes: &Vec<String>,
) -> (r: Result<String, TransformError>)
    requires
        plain_component(entry_name@),
    ensures
        r is Ok <==> bundle_accepts(
            store_map(*old(s)),
            entry_name@,
            entry@,
            strs_view(excludes),
        ),
        r is Ok ==> r->Ok_0@ == bundled_of(
            store_map(*old(s)),
            entry_name@,
            entry@,
            strs_view(excludes),
        ),
{
    let cfg = bundle_cfg(excludes);
    if s.resources.write(entry_name, entry).is_err() {
        return Err(TransformError::Resource);
    }
    let opts = darklua_core::Options::new(std::path::Path::new(entry_name)).with_configuration(
        cfg,
    );
    match darklua_core::process(&s.resources, opts) {
        Ok(tree) => match tree.result() {
            Ok(()) => s.resources.get(entry_name).map_err(|_| TransformError::Resource),
            Err(_) => Err(TransformError::Process),
        },
        Err(_) => Err(TransformError::Process),
    }
}

/// Relies on darklua_core's bundle configuration: path require mode with the
/// given module names excluded from inlining.
#[verifier::external_body]
fn bundle_cfg(excludes: &Vec<String>) -> darklua_core::Configuration {
    let mut bc = darklua_core::BundleConfiguration::new(
        darklua_core::rules::bundle::BundleRequireMode::Path(
            darklua_core::rules::PathRequireMode::new(""),
        ),
    );
    for e in excludes.iter() {
        bc = bc.with_exclude(e.as_str());
    }
    darklua_core::Configuration::empty().with_bundle_configuration(bc)
}

} // verus!
