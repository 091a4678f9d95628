//! Plugin registry: distribution-spec enforcement + health + rollback.
//!
//! On-disk layout (source-agnostic -- cloud pull, LAN push or USB copy all
//! land the same way):
//!   <plugins_dir>/<name>/<semver>/ holds the code and its manifest
//!
//! A `.disabled` marker persists a rollback decision across restarts. Reading
//! the directories and writing the marker is the caller's part; which version
//! is trusted and chosen is decided here.

use crate::breaker;
use crate::names;
use crate::names::NameMap;
use crate::plugin::host;
use crate::plugin::manifest;
use crate::plugin::manifest::{Manifest, ManifestModel, PluginKind, PublicKey};
use crate::plugin::runtime::{PluginRuntime, Program};
use crate::text;
use crate::text::Text;
use vstd::prelude::*;

verus! {

/// Whether a text is a semantic version.
pub uninterp spec fn semver_valid(t: Seq<char>) -> bool;

/// The order of semantic versions.
pub uninterp spec fn semver_le(a: Seq<char>, b: Seq<char>) -> bool;

/// What is wrong with text that is no semantic version.
pub uninterp spec fn semver_problem(t: Seq<char>) -> Seq<char>;

/// Calls `semver::Version::parse`: whether it succeeds, and how the error is worded,
/// are functions of the text.
#[verifier::external_body]
fn check_version(t: &str) -> (r: Result<(), String>)
    ensures
        r is Ok <==> semver_valid(t@),
        r matches Err(e) ==> e@ == semver_problem(t@),
{
    semver::Version::parse(t).map(|_| ()).map_err(|e| e.to_string())
}

/// Calls `semver::Version::parse` on both texts and compares the versions. The
/// order is a function of the texts, total and transitive.
#[verifier::external_body]
fn version_at_most(a: &str, b: &str) -> (r: bool)
    requires
        semver_valid(a@),
        semver_valid(b@),
    ensures
        r == semver_le(a@, b@),
        !r ==> semver_le(b@, a@),
        r ==> forall|c: Seq<char>|
            semver_valid(c) && #[trigger] semver_le(b@, c) ==> semver_le(a@, c),
{
    match (semver::Version::parse(a), semver::Version::parse(b)) {
        (Ok(x), Ok(y)) => x <= y,
        _ => false,
    }
}

pub struct LoadedPlugin {
    pub manifest: Manifest,
    pub module: Program,
    /// The version directory that the plugin was loaded from.
    pub dir: String,
    pub consecutive_failures: u32,
}

/// A loaded plugin as the contracts see it.
pub struct PluginModel {
    pub manifest: ManifestModel,
    /// The code that runs.
    pub code: Seq<u8>,
    pub dir: Text,
    pub failures: nat,
}

impl View for LoadedPlugin {
    type V = PluginModel;

    open spec fn view(&self) -> PluginModel {
        PluginModel {
            manifest: self.manifest@,
            code: self.module@,
            dir: self.dir@,
            failures: self.consecutive_failures as nat,
        }
    }
}

/// What was found in one version directory of a plugin.
pub struct VersionDir {
    /// The name of the directory, which is the version.
    pub name: String,
    pub path: String,
    pub is_dir: bool,
    /// Whether the `.disabled` marker is there.
    pub disabled: bool,
    /// The text of the manifest, or why it could not be read.
    pub manifest: Result<String, String>,
    /// The bytes of the code, or why they could not be read.
    pub wasm: Result<Vec<u8>, String>,
}

/// A version directory as the contracts see it.
pub struct VersionModel {
    pub name: Text,
    pub path: Text,
    pub is_dir: bool,
    pub disabled: bool,
    pub manifest: Result<Text, Text>,
    pub wasm: Result<Seq<u8>, Text>,
}

impl View for VersionDir {
    type V = VersionModel;

    open spec fn view(&self) -> VersionModel {
        VersionModel {
            name: self.name@,
            path: self.path@,
            is_dir: self.is_dir,
            disabled: self.disabled,
            manifest: match self.manifest {
                Ok(s) => Ok(s@),
                Err(e) => Err(e@),
            },
            wasm: match self.wasm {
                Ok(b) => Ok(b@),
                Err(e) => Err(e@),
            },
        }
    }
}

/// The version directories of a vector, in order.
pub open spec fn versions(v: Seq<VersionDir>) -> Seq<VersionModel> {
    Seq::new(v.len(), |i: int| v[i]@)
}

/// What was found in one plugin directory.
pub struct PluginDir {
    /// The name of the directory, which is the plugin's.
    pub name: String,
    /// Its version directories, or why they could not be listed.
    pub versions: Result<Vec<VersionDir>, String>,
}

/// Whose signatures are trusted.
pub struct ScanOptions<'a> {
    pub pubkey: Option<&'a PublicKey>,
    pub allow_unsigned: bool,
}

/// The options as the contracts see them.
pub struct TrustModel {
    pub pubkey: Option<Seq<u8>>,
    pub allow_unsigned: bool,
}

impl<'a> View for ScanOptions<'a> {
    type V = TrustModel;

    open spec fn view(&self) -> TrustModel {
        TrustModel {
            pubkey: match self.pubkey {
                Some(k) => Some(k@),
                None => None,
            },
            allow_unsigned: self.allow_unsigned,
        }
    }
}

/// A directory whose version may be tried.
pub open spec fn usable(v: VersionModel) -> bool {
    v.is_dir && !v.disabled && semver_valid(v.name)
}

/// `a` and `b` are the same version.
pub open spec fn same_version(a: Text, b: Text) -> bool {
    semver_le(a, b) && semver_le(b, a)
}

/// What trust demands of a manifest and its code: a signature under the
/// trusted key, or the leave to load unsigned plugins where there is no key.
pub open spec fn trust_problem(m: ManifestModel, wasm: Seq<u8>, trust: TrustModel) -> Option<Text> {
    match trust.pubkey {
        Some(key) => manifest::verify_problem(m, wasm, key),
        None => if trust.allow_unsigned {
            None
        } else {
            Some("no trusted_pubkey configured and dev_allow_unsigned is off"@)
        },
    }
}

/// The manifest of a version that may be loaded, or why it may not: the
/// directory layout must agree with the signed manifest, and the signature
/// must be trusted.
pub open spec fn admitted(v: VersionModel, name: Text, trust: TrustModel) -> Result<
    ManifestModel,
    Text,
> {
    match v.manifest {
        Err(e) => Err(e),
        Ok(document) => match manifest::manifest_of(document) {
            None => Err("the document is no manifest"@),
            Some(m) => match v.wasm {
                Err(e) => Err(e),
                Ok(wasm) => if m.name != name {
                    Err("manifest name '"@ + m.name + "' != directory '"@ + name + "'"@)
                } else if !semver_valid(m.version) {
                    Err(semver_problem(m.version))
                } else if !same_version(m.version, v.name) {
                    Err("manifest version '"@ + m.version + "' != directory '"@ + v.name + "'"@)
                } else {
                    match trust_problem(m, wasm, trust) {
                        Some(e) => Err(e),
                        None => Ok(m),
                    }
                },
            },
        },
    }
}

/// Version `i` is tried before version `j`: it is higher, or the same and
/// listed first.
pub open spec fn outranks(vs: Seq<VersionModel>, i: int, j: int) -> bool {
    semver_le(vs[j].name, vs[i].name) && (semver_le(vs[i].name, vs[j].name) ==> i < j)
}

/// `order` lists the usable versions, best first.
pub open spec fn ranking(vs: Seq<VersionModel>, order: Seq<usize>) -> bool {
    &&& forall|a: int|
        0 <= a < order.len() ==> (#[trigger] order[a]) < vs.len() && usable(vs[order[a] as int])
    &&& forall|a: int, b: int|
        0 <= a < b < order.len() ==> outranks(
            vs,
            (#[trigger] order[a]) as int,
            (#[trigger] order[b]) as int,
        ) && order[a] != order[b]
    &&& forall|i: int| 0 <= i < vs.len() && usable(#[trigger] vs[i]) ==> order.contains(i as usize)
}

/// `compiled` is what came of compiling the code: a program of that very code, or
/// an error that compiling it may end in.
pub open spec fn came_of(code: Seq<u8>, compiled: Result<Seq<u8>, Text>) -> bool {
    match compiled {
        Ok(c) => c == code && host::may_compile(code, Ok(())),
        Err(e) => host::may_compile(code, Err(e)),
    }
}

/// A version that was passed over.
pub struct Skipped {
    pub version: String,
    pub why: String,
    /// Whether it was about to be loaded without a signature.
    pub unsigned: bool,
}

/// A version that was passed over, as the contracts see it.
pub struct SkipModel {
    pub version: Text,
    pub why: Text,
    pub unsigned: bool,
}

impl View for Skipped {
    type V = SkipModel;

    open spec fn view(&self) -> SkipModel {
        SkipModel { version: self.version@, why: self.why@, unsigned: self.unsigned }
    }
}

/// The versions of a vector that were passed over, in order.
pub open spec fn skips(v: Seq<Skipped>) -> Seq<SkipModel> {
    Seq::new(v.len(), |i: int| v[i]@)
}

/// How a version was passed over: it was not admitted, or its code did not
/// compile when it was tried, without a signature where no key is trusted.
pub open spec fn passed_over(
    v: VersionModel,
    name: Text,
    trust: TrustModel,
    skip: SkipModel,
) -> bool {
    &&& skip.version == v.name
    &&& match admitted(v, name, trust) {
        Err(e) => skip.why == e && !skip.unsigned,
        Ok(_) => skip.unsigned == (trust.pubkey is None) && exists|e: Text| #[trigger]
            host::may_compile(v.wasm->Ok_0, Err(e)) && skip.why == "wasm compilation failed: "@
                + e,
    }
}

/// What trying the versions comes to: in the order of `order`, each of the
/// first ones was passed over for the reason given, and the next one, if there
/// is any, is the plugin.
pub open spec fn selected(
    vs: Seq<VersionModel>,
    name: Text,
    trust: TrustModel,
    order: Seq<usize>,
    plugin: Option<PluginModel>,
    skipped: Seq<SkipModel>,
) -> bool {
    &&& skipped.len() <= order.len()
    &&& forall|a: int|
        0 <= a < skipped.len() ==> passed_over(
            vs[order[a] as int],
            name,
            trust,
            #[trigger] skipped[a],
        )
    &&& match plugin {
        Some(p) => skipped.len() < order.len() && loaded_from(
            vs[order[skipped.len() as int] as int],
            name,
            trust,
            p,
        ),
        None => skipped.len() == order.len(),
    }
}

/// Only signed code runs once a key is configured, and without a key nothing
/// runs unless unsigned plugins were asked for.
pub proof fn law_only_trusted_code_is_admitted(v: VersionModel, name: Text, trust: TrustModel)
    requires
        admitted(v, name, trust) is Ok,
    ensures
        admitted(v, name, trust)->Ok_0.name == name,
        trust.pubkey matches Some(key) ==> v.wasm is Ok && manifest::verify_problem(
            admitted(v, name, trust)->Ok_0,
            v.wasm->Ok_0,
            key,
        ) is None,
        trust.pubkey is None ==> trust.allow_unsigned,
{
}

fn quoted_message(a: &str, x: &str, b: &str, y: &str, c: &str) -> (r: String)
    ensures
        r@ == a@ + x@ + b@ + y@ + c@,
{
    let mut message = a.to_string();
    message.append(x);
    message.append(b);
    message.append(y);
    message.append(c);
    message
}

/// Whether a version may be loaded, and the manifest it then has.
pub fn examine(v: &VersionDir, name: &str, opts: &ScanOptions) -> (r: Result<Manifest, String>)
    requires
        semver_valid(v.name@),
    ensures
        match admitted(v@, name@, opts@) {
            Ok(m) => r is Ok && r->Ok_0@ == m,
            Err(e) => r is Err && r->Err_0@ == e,
        },
{
    let document = match &v.manifest {
        Ok(s) => s,
        Err(e) => {
            return Err(e.clone());
        },
    };
    let m = match Manifest::from_json(document.as_str()) {
        Some(m) => m,
        None => {
            return Err("the document is no manifest".to_string());
        },
    };
    let wasm = match &v.wasm {
        Ok(b) => b,
        Err(e) => {
            return Err(e.clone());
        },
    };
    if !text::same_text(m.name.as_str(), name) {
        return Err(
            quoted_message("manifest name '", m.name.as_str(), "' != directory '", name, "'"),
        );
    }
    match check_version(m.version.as_str()) {
        Ok(()) => {},
        Err(e) => {
            return Err(e);
        },
    }
    if !version_at_most(m.version.as_str(), v.name.as_str()) || !version_at_most(
        v.name.as_str(),
        m.version.as_str(),
    ) {
        return Err(
            quoted_message(
                "manifest version '",
                m.version.as_str(),
                "' != directory '",
                v.name.as_str(),
                "'",
            ),
        );
    }
    match opts.pubkey {
        Some(key) => match m.verify(wasm.as_slice(), key) {
            Ok(()) => Ok(m),
            Err(e) => Err(e),
        },
        None => {
            if opts.allow_unsigned {
                Ok(m)
            } else {
                Err("no trusted_pubkey configured and dev_allow_unsigned is off".to_string())
            }
        },
    }
}

/// The versions that may be tried, best first.
pub fn rank(vs: &[VersionDir]) -> (r: Vec<usize>)
    ensures
        ranking(versions(vs@), r@),
{
    let ghost all = versions(vs@);
    let mut out: Vec<usize> = Vec::new();
    let mut i: usize = 0;
    while i < vs.len()
        invariant
            i <= vs@.len(),
            all == versions(vs@),
            forall|a: int|
                0 <= a < out@.len() ==> (#[trigger] out@[a]) < i && usable(all[out@[a] as int]),
            forall|a: int, b: int|
                0 <= a < b < out@.len() ==> outranks(
                    all,
                    (#[trigger] out@[a]) as int,
                    (#[trigger] out@[b]) as int,
                ) && out@[a] != out@[b],
            forall|k: int| 0 <= k < i && usable(#[trigger] all[k]) ==> out@.contains(k as usize),
        decreases vs.len() - i,
    {
        let v = &vs[i];
        assert(all[i as int] == v@);
        if v.is_dir && !v.disabled && check_version(v.name.as_str()).is_ok() {
            let mut p: usize = out.len();
            while p > 0 && !version_at_most(v.name.as_str(), vs[out[p - 1]].name.as_str())
                invariant
                    p <= out@.len(),
                    i < vs@.len(),
                    all == versions(vs@),
                    v@ == all[i as int],
                    semver_valid(v.name@),
                    forall|a: int|
                        0 <= a < out@.len() ==> (#[trigger] out@[a]) < i && usable(
                            all[out@[a] as int],
                        ),
                    forall|a: int|
                        p <= a < out@.len() ==> !semver_le(
                            v.name@,
                            all[(#[trigger] out@[a]) as int].name,
                        ) && semver_le(all[out@[a] as int].name, v.name@),
                decreases p,
            {
                p -= 1;
            }
            let ghost before = out@;
            proof {
                if p > 0 {
                    let near = all[before[p - 1] as int].name;
                    assert(semver_le(v.name@, near));
                    assert forall|a: int| 0 <= a < p implies semver_le(
                        v.name@,
                        all[(#[trigger] before[a]) as int].name,
                    ) by {
                        if a < p - 1 {
                            assert(outranks(all, before[a] as int, before[p - 1] as int));
                        }
                    }
                }
            }
            out.insert(p, i);
            proof {
                assert(out@ =~= before.insert(p as int, i));
                assert forall|a: int, b: int| 0 <= a < b < out@.len() implies outranks(
                    all,
                    (#[trigger] out@[a]) as int,
                    (#[trigger] out@[b]) as int,
                ) && out@[a] != out@[b] by {
                    let x = if a < p { a } else { a - 1 };
                    let y = if b < p { b } else { b - 1 };
                    if a == p {
                        assert(out@[b] == before[y]);
                    } else if b == p {
                        assert(out@[a] == before[x]);
                    } else {
                        assert(out@[a] == before[x] && out@[b] == before[y]);
                    }
                }
                assert forall|k: int| 0 <= k < i + 1 && usable(#[trigger] all[k]) implies out@.contains(
                    k as usize,
                ) by {
                    if k == i {
                        assert(out@[p as int] == i);
                    } else {
                        let q = choose|q: int| 0 <= q < before.len() && before[q] == k as usize;
                        let z = if q < p { q } else { q + 1 };
                        assert(out@[z] == k as usize);
                    }
                }
                assert forall|a: int| 0 <= a < out@.len() implies (#[trigger] out@[a]) < i + 1
                    && usable(all[out@[a] as int]) by {
                    if a != p {
                        let x = if a < p { a } else { a - 1 };
                        assert(out@[a] == before[x]);
                    }
                }
            }
        }
        i += 1;
    }
    out
}

/// The line that a version which was passed over leaves in the log.
pub open spec fn skip_line(name: Text, version: Text, why: Text) -> Text {
    "[registry] "@ + name + "/"@ + version + " skipped: "@ + why
}

/// The line that code which is about to be loaded without a signature leaves in the
/// log.
pub open spec fn unsigned_line(name: Text) -> Text {
    "[registry] WARNING: loading UNSIGNED plugin '"@ + name + "' (dev mode)"@
}

/// The warning, where there is something to warn of.
pub open spec fn warning(name: Text, unsigned: bool) -> Seq<Text> {
    if unsigned {
        seq![unsigned_line(name)]
    } else {
        seq![]
    }
}

/// The lines that versions which were passed over leave in the log.
pub open spec fn skip_lines(name: Text, skipped: Seq<SkipModel>) -> Seq<Text>
    decreases skipped.len(),
{
    if skipped.len() == 0 {
        seq![]
    } else {
        let last = skipped.last();
        (skip_lines(name, skipped.drop_last()) + warning(name, last.unsigned)).push(
            skip_line(name, last.version, last.why),
        )
    }
}

/// The lines that trying the versions leaves in the log: those of the versions that
/// were passed over, and the warning where the one that was chosen has no signature
/// to go by.
pub open spec fn trial_lines(
    name: Text,
    trust: TrustModel,
    plugin: Option<PluginModel>,
    skipped: Seq<SkipModel>,
) -> Seq<Text> {
    skip_lines(name, skipped) + warning(name, plugin is Some && trust.pubkey is None)
}

/// The line that a plugin which was found by a scan leaves in the log.
pub open spec fn loaded_line(m: ManifestModel) -> Text {
    "[registry] loaded "@ + m.name + " v"@ + m.version + " ("@ + kind_word(m.kind) + ")"@
}

/// The word for a kind.
pub open spec fn kind_word(kind: PluginKind) -> Text {
    match kind {
        PluginKind::Strategy => "Strategy"@,
        PluginKind::Tool => "Tool"@,
        PluginKind::Hook => "Hook"@,
    }
}

/// The line that a plugin which was resolved anew leaves in the log.
pub open spec fn update_line(name: Text, plugin: Option<PluginModel>) -> Text {
    match plugin {
        Some(p) => "[registry] hot-updated "@ + name + " -> v"@ + p.manifest.version,
        None => "[registry] plugin '"@ + name + "' removed (no loadable version)"@,
    }
}

/// The line that a plugin which failed too often leaves in the log.
pub open spec fn rollback_line(name: Text, version: Text) -> Text {
    "[registry] plugin '"@ + name + "' v"@ + version + " disabled, rolling back"@
}

fn note_unsigned(name: &str) -> (r: String)
    ensures
        r@ == unsigned_line(name@),
{
    let mut line = "[registry] WARNING: loading UNSIGNED plugin '".to_string();
    line.append(name);
    line.append("' (dev mode)");
    line
}

fn note_loaded(m: &Manifest) -> (r: String)
    ensures
        r@ == loaded_line(m@),
{
    let mut line = "[registry] loaded ".to_string();
    line.append(m.name.as_str());
    line.append(" v");
    line.append(m.version.as_str());
    line.append(" (");
    line.append(
        match m.kind {
            PluginKind::Strategy => "Strategy",
            PluginKind::Tool => "Tool",
            PluginKind::Hook => "Hook",
        },
    );
    line.append(")");
    line
}

/// The line that a plugin which was resolved anew leaves in the log.
pub fn note_update(name: &str, plugin: &Option<LoadedPlugin>) -> (r: String)
    ensures
        r@ == update_line(name@, opt_plugin(*plugin)),
{
    match plugin {
        Some(p) => {
            let mut line = "[registry] hot-updated ".to_string();
            line.append(name);
            line.append(" -> v");
            line.append(p.manifest.version.as_str());
            line
        },
        None => {
            let mut line = "[registry] plugin '".to_string();
            line.append(name);
            line.append("' removed (no loadable version)");
            line
        },
    }
}

/// The line that a plugin which failed too often leaves in the log.
pub fn note_rollback(name: &str, version: &str) -> (r: String)
    ensures
        r@ == rollback_line(name@, version@),
{
    quoted_message("[registry] plugin '", name, "' v", version, " disabled, rolling back")
}

/// The lines that trying the versions leaves in the log.
pub fn note_trial(name: &str, opts: &ScanOptions, found: &Selection) -> (r: Vec<String>)
    ensures
        text::texts(r@) == trial_lines(
            name@,
            opts@,
            opt_plugin(found.plugin),
            skips(found.skipped@),
        ),
{
    let ghost all = skips(found.skipped@);
    let mut out: Vec<String> = Vec::new();
    let mut i: usize = 0;
    assert(text::texts(out@) =~= skip_lines(name@, all.take(0)));
    while i < found.skipped.len()
        invariant
            i <= found.skipped@.len(),
            all == skips(found.skipped@),
            text::texts(out@) == skip_lines(name@, all.take(i as int)),
        decreases found.skipped.len() - i,
    {
        let ghost before = text::texts(out@);
        let skip = &found.skipped[i];
        if skip.unsigned {
            out.push(note_unsigned(name));
        }
        assert(text::texts(out@) =~= before + warning(name@, skip.unsigned));
        let ghost before = text::texts(out@);
        let mut line = quoted_message(
            "[registry] ",
            name,
            "/",
            skip.version.as_str(),
            " skipped: ",
        );
        line.append(skip.why.as_str());
        assert(line@ == skip_line(name@, skip.version@, skip.why@));
        out.push(line);
        proof {
            let next = all.take(i + 1);
            assert(next.drop_last() =~= all.take(i as int));
            assert(next.last() == skip@);
            assert(text::texts(out@) =~= before.push(line@));
        }
        i += 1;
    }
    assert(all.take(i as int) =~= all);
    let ghost before = text::texts(out@);
    if found.plugin.is_some() && opts.pubkey.is_none() {
        out.push(note_unsigned(name));
    }
    assert(text::texts(out@) =~= before + warning(
        name@,
        found.plugin is Some && opts.pubkey is None,
    ));
    out
}

/// The plugin that code becomes once it compiled, or why there is none.
pub open spec fn load_result(
    m: ManifestModel,
    dir: Text,
    compiled: Result<Seq<u8>, Text>,
) -> Result<PluginModel, Text> {
    match compiled {
        Ok(code) => Ok(PluginModel { manifest: m, code, dir, failures: 0 }),
        Err(e) => Err("wasm compilation failed: "@ + e),
    }
}

/// The views of what a program, or of what a version, came to.
pub open spec fn program_texts(r: Result<Program, String>) -> Result<Seq<u8>, Text> {
    match r {
        Ok(p) => Ok(p@),
        Err(e) => Err(e@),
    }
}

pub open spec fn loaded_texts(r: Result<LoadedPlugin, String>) -> Result<PluginModel, Text> {
    match r {
        Ok(p) => Ok(p@),
        Err(e) => Err(e@),
    }
}

/// Makes a plugin of an admitted manifest and of what compiling its code came to.
pub fn finish_load(m: Manifest, dir: &str, compiled: Result<Program, String>) -> (r: Result<
    LoadedPlugin,
    String,
>)
    ensures
        loaded_texts(r) == load_result(m@, dir@, program_texts(compiled)),
{
    match compiled {
        Ok(module) => Ok(
            LoadedPlugin { manifest: m, module, dir: dir.to_string(), consecutive_failures: 0 },
        ),
        Err(e) => {
            let mut message = "wasm compilation failed: ".to_string();
            message.append(e.as_str());
            Err(message)
        },
    }
}

/// A version became a plugin: it was admitted, and its code compiled.
pub open spec fn loaded_from(
    v: VersionModel,
    name: Text,
    trust: TrustModel,
    p: PluginModel,
) -> bool {
    admitted(v, name, trust) matches Ok(m) && v.wasm matches Ok(code) && host::may_compile(
        code,
        Ok(()),
    ) && p == (PluginModel { manifest: m, code, dir: v.path, failures: 0 })
}

/// Loads one version: it must be admitted, and its code must compile.
fn load_version(rt: &PluginRuntime, v: &VersionDir, name: &str, opts: &ScanOptions) -> (r: Result<
    LoadedPlugin,
    Skipped,
>)
    requires
        semver_valid(v.name@),
    ensures
        match r {
            Ok(p) => loaded_from(v@, name@, opts@, p@),
            Err(skip) => passed_over(v@, name@, opts@, skip@),
        },
{
    let version = v.name.clone();
    match examine(v, name, opts) {
        Err(why) => Err(Skipped { version, why, unsigned: false }),
        Ok(m) => match &v.wasm {
            Err(why) => Err(Skipped { version, why: why.clone(), unsigned: false }),
            Ok(wasm) => {
                let compiled = rt.compile(wasm.as_slice());
                assert(came_of(wasm@, program_texts(compiled)));
                match finish_load(m, v.path.as_str(), compiled) {
                    Ok(p) => Ok(p),
                    Err(why) => Err(Skipped { version, why, unsigned: opts.pubkey.is_none() }),
                }
            },
        },
    }
}

/// The plugin that is to be active, if any, and the versions that were passed
/// over for it, with the reasons.
pub struct Selection {
    pub plugin: Option<LoadedPlugin>,
    pub skipped: Vec<Skipped>,
}

/// The view of an optional plugin.
pub open spec fn opt_plugin(p: Option<LoadedPlugin>) -> Option<PluginModel> {
    match p {
        Some(p) => Some(p@),
        None => None,
    }
}

/// Picks the plugin that is to be active: versions are tried from highest
/// semver down, and the first one that verifies and compiles wins. Which code
/// compiles is up to the machine.
pub fn load_best_version(
    rt: &PluginRuntime,
    name: &str,
    vs: &[VersionDir],
    opts: &ScanOptions,
) -> (r: Selection)
    ensures
        exists|order: Seq<usize>| #[trigger]
            ranking(versions(vs@), order) && selected(
                versions(vs@),
                name@,
                opts@,
                order,
                opt_plugin(r.plugin),
                skips(r.skipped@),
            ),
{
    let ghost all = versions(vs@);
    let order = rank(vs);
    let mut skipped: Vec<Skipped> = Vec::new();
    let mut k: usize = 0;
    while k < order.len()
        invariant
            k <= order@.len(),
            all == versions(vs@),
            ranking(all, order@),
            skipped@.len() == k,
            forall|a: int|
                0 <= a < k ==> passed_over(
                    all[order@[a] as int],
                    name@,
                    opts@,
                    #[trigger] skips(skipped@)[a],
                ),
        decreases order.len() - k,
    {
        let v = &vs[order[k]];
        assert(all[order@[k as int] as int] == v@);
        match load_version(rt, v, name, opts) {
            Ok(p) => {
                let plugin = Some(p);
                assert(selected(
                    all,
                    name@,
                    opts@,
                    order@,
                    opt_plugin(plugin),
                    skips(skipped@),
                ));
                return Selection { plugin, skipped };
            },
            Err(skip) => {
                let ghost before = skips(skipped@);
                skipped.push(skip);
                assert(skips(skipped@) =~= before.push(skip@));
            },
        }
        k += 1;
    }
    assert(selected(all, name@, opts@, order@, None, skips(skipped@)));
    Selection { plugin: None, skipped }
}

/// A version is among those that were passed over, with a reason of its own.
pub open spec fn was_passed_over(
    v: VersionModel,
    name: Text,
    trust: TrustModel,
    skipped: Seq<SkipModel>,
) -> bool {
    exists|skip: SkipModel| #[trigger] passed_over(v, name, trust, skip) && skipped.contains(skip)
}

/// The highest version that can be trusted and compiled is the one that runs:
/// every usable version that outranks the chosen one was passed over for a
/// reason.
pub proof fn law_highest_loadable_version_wins(
    vs: Seq<VersionModel>,
    name: Text,
    trust: TrustModel,
    order: Seq<usize>,
    plugin: PluginModel,
    skipped: Seq<SkipModel>,
    i: int,
)
    requires
        ranking(vs, order),
        selected(vs, name, trust, order, Some(plugin), skipped),
        0 <= i < vs.len(),
        usable(vs[i]),
        vs.len() <= usize::MAX,
        outranks(vs, i, order[skipped.len() as int] as int),
    ensures
        was_passed_over(vs[i], name, trust, skipped),
{
    let a = choose|a: int| 0 <= a < order.len() && order[a] == i as usize;
    let chosen = skipped.len() as int;
    if a > chosen {
        assert(outranks(vs, order[chosen] as int, order[a] as int));
    }
    assert(passed_over(vs[i], name, trust, skipped[a]));
}

/// A rollback decision holds: the plugin that runs comes from a version that
/// is not marked as disabled.
pub proof fn law_disabled_versions_never_run(
    vs: Seq<VersionModel>,
    name: Text,
    trust: TrustModel,
    order: Seq<usize>,
    plugin: PluginModel,
    skipped: Seq<SkipModel>,
)
    requires
        ranking(vs, order),
        selected(vs, name, trust, order, Some(plugin), skipped),
    ensures
        exists|i: int|
            0 <= i < vs.len() && !(#[trigger] vs[i]).disabled && vs[i].path == plugin.dir
                && admitted(vs[i], name, trust) == Ok::<ManifestModel, Text>(plugin.manifest),
{
    let i = order[skipped.len() as int] as int;
    assert(usable(vs[i]));
    assert(!vs[i].disabled);
}

/// What is trusted about a plugin: that its manifest and the very code that runs
/// are signed under the trusted key, or that unsigned plugins were asked for
/// where there is no key.
pub open spec fn trusted(p: PluginModel, trust: TrustModel) -> bool {
    trust_problem(p.manifest, p.code, trust) is None
}

/// Every plugin is trusted.
pub open spec fn all_trusted(s: Plugins, trust: TrustModel) -> bool {
    forall|i: int| 0 <= i < s.len() ==> trusted((#[trigger] s[i]).1, trust)
}

/// Whatever is selected is trusted.
pub proof fn law_only_trusted_code_is_selected(
    vs: Seq<VersionModel>,
    name: Text,
    trust: TrustModel,
    order: Seq<usize>,
    plugin: PluginModel,
    skipped: Seq<SkipModel>,
)
    requires
        selected(vs, name, trust, order, Some(plugin), skipped),
    ensures
        trusted(plugin, trust),
{
}

/// The plugins stay trusted when a trusted one is put among them.
pub proof fn lemma_put_trusted(s: Plugins, name: Text, p: PluginModel, trust: TrustModel)
    requires
        all_trusted(s, trust),
        trusted(p, trust),
    ensures
        all_trusted(names::put(s, name, p), trust),
    decreases s.len(),
{
    let t = names::put(s, name, p);
    if s.len() > 0 {
        let rest = s.drop_first();
        assert forall|i: int| 0 <= i < rest.len() implies trusted(
            (#[trigger] rest[i]).1,
            trust,
        ) by {
            assert(rest[i] == s[i + 1]);
        }
        lemma_put_trusted(rest, name, p, trust);
        assert(trusted(s[0].1, trust));
        assert forall|i: int| 0 <= i < t.len() implies trusted((#[trigger] t[i]).1, trust) by {
            if s[0].0 == name {
                assert(t =~= seq![(name, p)] + rest);
            } else if text::text_le(name, s[0].0) {
                assert(t =~= seq![(name, p)] + s);
                if i > 0 {
                    assert(t[i] == s[i - 1]);
                }
            } else {
                let u = names::put(rest, name, p);
                assert(t =~= seq![s[0]] + u);
                if i > 0 {
                    assert(t[i] == u[i - 1]);
                }
            }
        }
    }
}

/// The plugins stay trusted when one is taken out.
pub proof fn lemma_without_trusted(s: Plugins, name: Text, trust: TrustModel)
    requires
        all_trusted(s, trust),
    ensures
        all_trusted(names::without(s, name), trust),
    decreases s.len(),
{
    if s.len() > 0 {
        let rest = s.drop_first();
        assert forall|i: int| 0 <= i < rest.len() implies trusted(
            (#[trigger] rest[i]).1,
            trust,
        ) by {
            assert(rest[i] == s[i + 1]);
        }
        lemma_without_trusted(rest, name, trust);
        let t = names::without(s, name);
        let u = names::without(rest, name);
        assert(trusted(s[0].1, trust));
        assert forall|i: int| 0 <= i < t.len() implies trusted((#[trigger] t[i]).1, trust) by {
            if s[0].0 == name {
                assert(t[i] == rest[i]);
            } else if i > 0 {
                assert(t =~= seq![s[0]] + u);
                assert(t[i] == u[i - 1]);
            }
        }
    }
}

/// Counting failures changes nothing about trust.
pub proof fn lemma_reported_trusted(s: Plugins, name: Text, ok: bool, trust: TrustModel)
    requires
        all_trusted(s, trust),
    ensures
        all_trusted(reported(s, name, ok), trust),
{
    if names::find(s, name) is Some {
        let p = names::find(s, name)->0;
        let i = names::lemma_found(s, name);
        assert(trusted(s[i].1, trust));
        lemma_put_trusted(
            s,
            name,
            PluginModel { failures: failures_after(p.failures, ok), ..p },
            trust,
        );
    }
}

/// Only trusted code is loaded by a scan.
pub proof fn law_only_trusted_code_is_scanned(
    states: Seq<ScanModel>,
    dirs: Seq<PluginDir>,
    trust: TrustModel,
)
    requires
        scanned_all(states, dirs, trust),
    ensures
        all_trusted(states.last().plugins, trust),
{
    lemma_scanned_trusted(states, dirs, trust, dirs.len() as int);
}

proof fn lemma_scanned_trusted(
    states: Seq<ScanModel>,
    dirs: Seq<PluginDir>,
    trust: TrustModel,
    n: int,
)
    requires
        scanned_all(states, dirs, trust),
        0 <= n <= dirs.len(),
    ensures
        all_trusted(states[n].plugins, trust),
    decreases n,
{
    if n > 0 {
        lemma_scanned_trusted(states, dirs, trust, n - 1);
        let before = states[n - 1];
        let dir = dirs[n - 1];
        assert(scanned(before, states[n - 1 + 1], dir, trust));
        if dir.versions is Ok {
            let vs = versions(dir.versions->Ok_0@);
            let (order, plugin, skipped) = choose|
                order: Seq<usize>,
                plugin: Option<PluginModel>,
                skipped: Seq<SkipModel>,
            |
                #![trigger selected(vs, dir.name@, trust, order, plugin, skipped)]
                ranking(vs, order) && selected(vs, dir.name@, trust, order, plugin, skipped)
                    && match plugin {
                    Some(p) => states[n].plugins == names::put(before.plugins, dir.name@, p),
                    None => states[n].plugins == before.plugins,
                };
            if plugin is Some {
                lemma_put_trusted(before.plugins, dir.name@, plugin->0, trust);
            }
        }
    }
}

/// The loaded plugins, in name order.
pub type Plugins = Seq<(Text, PluginModel)>;

/// Plugins of one kind.
pub open spec fn of_kind(kind: PluginKind) -> spec_fn((Text, PluginModel)) -> bool {
    |e: (Text, PluginModel)| e.1.manifest.kind == kind
}

/// Plugins that attach to a hook point.
pub open spec fn attached_to(point: Text) -> spec_fn((Text, PluginModel)) -> bool {
    |e: (Text, PluginModel)|
        e.1.manifest.kind == PluginKind::Hook && e.1.manifest.hooks.contains(point)
}

/// All plugins.
pub open spec fn any_plugin() -> spec_fn((Text, PluginModel)) -> bool {
    |e: (Text, PluginModel)| true
}

/// A list of plugins with `p` in it, behind all that its name does not come before.
pub open spec fn placed(list: Seq<PluginModel>, p: PluginModel) -> Seq<PluginModel>
    decreases list.len(),
{
    if list.len() == 0 || text::text_le(list.last().manifest.name, p.manifest.name) {
        list.push(p)
    } else {
        placed(list.drop_last(), p).push(list.last())
    }
}

/// The plugins that are wanted, in the order of the names that their manifests give
/// them.
pub open spec fn by_name(
    s: Plugins,
    wanted: spec_fn((Text, PluginModel)) -> bool,
) -> Seq<PluginModel>
    decreases s.len(),
{
    if s.len() == 0 {
        seq![]
    } else {
        let front = by_name(s.drop_last(), wanted);
        if wanted(s.last()) {
            placed(front, s.last().1)
        } else {
            front
        }
    }
}

/// The names that the manifests of the plugins that are wanted give them, in order.
pub open spec fn called(s: Plugins, wanted: spec_fn((Text, PluginModel)) -> bool) -> Seq<Text> {
    let list = by_name(s, wanted);
    Seq::new(list.len(), |i: int| list[i].manifest.name)
}

proof fn lemma_placed(list: Seq<PluginModel>, p: PluginModel, k: int)
    requires
        0 <= k <= list.len(),
        k > 0 ==> text::text_le(list[k - 1].manifest.name, p.manifest.name),
        forall|i: int|
            k <= i < list.len() ==> !text::text_le(
                (#[trigger] list[i]).manifest.name,
                p.manifest.name,
            ),
    ensures
        placed(list, p) == list.insert(k, p),
    decreases list.len(),
{
    if k == list.len() {
        assert(list.insert(k, p) =~= list.push(p));
    } else {
        let front = list.drop_last();
        assert(list[list.len() - 1] == list.last());
        assert forall|i: int| k <= i < front.len() implies !text::text_le(
            (#[trigger] front[i]).manifest.name,
            p.manifest.name,
        ) by {
            assert(front[i] == list[i]);
        }
        lemma_placed(front, p, k);
        assert(front.insert(k, p).push(list.last()) =~= list.insert(k, p));
    }
}

/// The names of a list of plugins ascend.
spec fn in_name_order(list: Seq<PluginModel>) -> bool {
    forall|i: int, j: int|
        0 <= i < j < list.len() ==> text::text_le(
            (#[trigger] list[i]).manifest.name,
            (#[trigger] list[j]).manifest.name,
        )
}

proof fn lemma_placed_in_order(list: Seq<PluginModel>, p: PluginModel)
    requires
        in_name_order(list),
    ensures
        in_name_order(placed(list, p)),
        placed(list, p).len() == list.len() + 1,
        forall|q: PluginModel| #[trigger]
            placed(list, p).contains(q) <==> list.contains(q) || q == p,
    decreases list.len(),
{
    text::lemma_text_order_total();
    let order = text::text_order();
    if list.len() == 0 || text::text_le(list.last().manifest.name, p.manifest.name) {
        let t = list.push(p);
        assert forall|i: int, j: int| 0 <= i < j < t.len() implies text::text_le(
            (#[trigger] t[i]).manifest.name,
            (#[trigger] t[j]).manifest.name,
        ) by {
            if j == list.len() && i < list.len() - 1 {
                assert(text::text_le(list[i].manifest.name, list.last().manifest.name));
                assert(order(list[i].manifest.name, list.last().manifest.name));
                assert(order(list.last().manifest.name, p.manifest.name));
                assert(order(list[i].manifest.name, p.manifest.name));
            }
        }
        assert(t[list.len() as int] == p);
        assert forall|q: PluginModel| #[trigger] t.contains(q) <==> list.contains(q) || q == p by {
            if list.contains(q) {
                let a = list.index_of(q);
                assert(t[a] == q);
            }
        }
    } else {
        let front = list.drop_last();
        let last = list.last();
        let u = placed(front, p);
        let t = u.push(last);
        lemma_placed_in_order(front, p);
        assert(order(p.manifest.name, last.manifest.name) || order(
            last.manifest.name,
            p.manifest.name,
        ));
        assert forall|i: int, j: int| 0 <= i < j < t.len() implies text::text_le(
            (#[trigger] t[i]).manifest.name,
            (#[trigger] t[j]).manifest.name,
        ) by {
            if j == u.len() {
                assert(u.contains(u[i]));
                if u[i] != p {
                    let a = front.index_of(u[i]);
                    assert(list[a] == u[i]);
                }
            }
        }
        assert(t[u.len() as int] == last);
        assert forall|q: PluginModel| #[trigger] t.contains(q) <==> list.contains(q) || q == p by {
            if t.contains(q) && q != last {
                let a = t.index_of(q);
                assert(u[a] == q);
                assert(u.contains(q));
                if q != p {
                    let b = front.index_of(q);
                    assert(list[b] == q);
                }
            }
            if list.contains(q) && q != last {
                let a = list.index_of(q);
                assert(front[a] == q);
                assert(front.contains(q));
            }
            if u.contains(q) {
                let a = u.index_of(q);
                assert(t[a] == q);
            }
            assert(list[list.len() - 1] == last);
        }
    }
}

/// Plugins are listed by name: every one that is wanted is there, no other is, and the
/// names that their manifests give them ascend.
pub proof fn law_plugins_are_listed_by_name(
    s: Plugins,
    wanted: spec_fn((Text, PluginModel)) -> bool,
)
    ensures
        forall|i: int, j: int|
            0 <= i < j < called(s, wanted).len() ==> text::text_le(
                #[trigger] called(s, wanted)[i],
                #[trigger] called(s, wanted)[j],
            ),
        forall|q: PluginModel| #[trigger]
            by_name(s, wanted).contains(q) <==> exists|i: int|
                0 <= i < s.len() && wanted(#[trigger] s[i]) && s[i].1 == q,
{
    lemma_by_name(s, wanted);
}

proof fn lemma_by_name(s: Plugins, wanted: spec_fn((Text, PluginModel)) -> bool)
    ensures
        in_name_order(by_name(s, wanted)),
        forall|q: PluginModel| #[trigger]
            by_name(s, wanted).contains(q) <==> exists|i: int|
                0 <= i < s.len() && wanted(#[trigger] s[i]) && s[i].1 == q,
    decreases s.len(),
{
    if s.len() > 0 {
        let front = s.drop_last();
        let n = s.len() - 1;
        lemma_by_name(front, wanted);
        if wanted(s.last()) {
            lemma_placed_in_order(by_name(front, wanted), s.last().1);
        }
        assert forall|q: PluginModel| #[trigger]
            by_name(s, wanted).contains(q) <==> exists|i: int|
                0 <= i < s.len() && wanted(#[trigger] s[i]) && s[i].1 == q by {
            if by_name(front, wanted).contains(q) {
                let i = choose|i: int|
                    0 <= i < front.len() && wanted(#[trigger] front[i]) && front[i].1 == q;
                assert(wanted(s[i]) && s[i].1 == q);
            }
            if wanted(s.last()) && s.last().1 == q {
                assert(wanted(s[n]) && s[n].1 == q);
            }
            if exists|i: int| 0 <= i < s.len() && wanted(#[trigger] s[i]) && s[i].1 == q {
                let i = choose|i: int|
                    0 <= i < s.len() && wanted(#[trigger] s[i]) && s[i].1 == q;
                if i < n {
                    assert(wanted(front[i]) && front[i].1 == q);
                }
            }
        }
    }
}

/// The views of a vector of references to plugins.
pub open spec fn plugin_models(v: Seq<&LoadedPlugin>) -> Seq<PluginModel> {
    Seq::new(v.len(), |i: int| v[i]@)
}

/// Puts a plugin in a list, behind all that its name does not come before.
fn place<'a>(list: &mut Vec<&'a LoadedPlugin>, p: &'a LoadedPlugin)
    ensures
        plugin_models(final(list)@) == placed(plugin_models(old(list)@), p@),
{
    let ghost before = plugin_models(list@);
    let mut k: usize = list.len();
    while k > 0 && !text::text_at_most(
        list[k - 1].manifest.name.as_str(),
        p.manifest.name.as_str(),
    )
        invariant
            k <= list@.len(),
            before == plugin_models(list@),
            forall|i: int|
                k <= i < before.len() ==> !text::text_le(
                    (#[trigger] before[i]).manifest.name,
                    p@.manifest.name,
                ),
        decreases k,
    {
        assert(before[k - 1] == list@[k - 1]@);
        k -= 1;
    }
    proof {
        if k > 0 {
            assert(before[k - 1] == list@[k - 1]@);
        }
        lemma_placed(before, p@, k as int);
    }
    list.insert(k, p);
    assert(plugin_models(list@) =~= before.insert(k as int, p@));
}

/// The names that the manifests of plugins give them.
fn copy_names(list: &[&LoadedPlugin]) -> (r: Vec<String>)
    ensures
        r@.len() == list@.len(),
        forall|i: int| 0 <= i < list@.len() ==> (#[trigger] r@[i])@ == list@[i].manifest.name@,
{
    let mut out: Vec<String> = Vec::new();
    let mut i: usize = 0;
    while i < list.len()
        invariant
            i <= list@.len(),
            out@.len() == i,
            forall|j: int| 0 <= j < i ==> (#[trigger] out@[j])@ == list@[j].manifest.name@,
        decreases list.len() - i,
    {
        out.push(list[i].manifest.name.clone());
        i += 1;
    }
    out
}

/// The tool `name`, if there is one.
pub open spec fn tool_of(s: Plugins, name: Text) -> Option<PluginModel> {
    match names::find(s, name) {
        Some(p) => if p.manifest.kind == PluginKind::Tool {
            Some(p)
        } else {
            None
        },
        None => None,
    }
}

/// How many failures in a row a plugin has after a call that went well or not.
pub open spec fn failures_after(failures: nat, ok: bool) -> nat {
    if ok {
        0
    } else {
        breaker::counted(failures)
    }
}

/// The plugins after a call of `name`.
pub open spec fn reported(s: Plugins, name: Text, ok: bool) -> Plugins {
    match names::find(s, name) {
        Some(p) => names::put(
            s,
            name,
            PluginModel { failures: failures_after(p.failures, ok), ..p },
        ),
        None => s,
    }
}

/// A call that did not go well brings `name` to the threshold.
pub open spec fn trips(s: Plugins, name: Text, ok: bool, max_failures: nat) -> bool {
    match names::find(s, name) {
        Some(p) => !ok && failures_after(p.failures, ok) >= max_failures,
        None => false,
    }
}

/// The plugins after `name` was resolved anew.
pub open spec fn resolved(s: Plugins, name: Text, plugin: Option<PluginModel>) -> Plugins {
    match plugin {
        Some(p) => names::put(s, name, p),
        None => names::without(s, name),
    }
}

pub struct Registry {
    plugins: NameMap<LoadedPlugin>,
}

impl View for Registry {
    type V = Plugins;

    closed spec fn view(&self) -> Plugins {
        self.plugins@
    }
}

impl Default for Registry {
    fn default() -> (r: Self)
        ensures
            r@ == Seq::<(Text, PluginModel)>::empty(),
    {
        Registry { plugins: NameMap::new() }
    }
}

/// Where a scan stands: the plugins so far, and the lines that it has logged.
pub struct ScanModel {
    pub plugins: Plugins,
    pub notes: Seq<Text>,
}

/// The line that a plugin directory which cannot be listed leaves in the log.
pub open spec fn reject_line(name: Text, why: Text) -> Text {
    "[registry] plugin '"@ + name + "' rejected: "@ + why
}

/// What scanning one directory did to the plugins: nothing where its versions
/// could not be listed or none could be loaded, and else it put the one that
/// was selected under the directory's name. What was tried and what was loaded is
/// noted.
pub open spec fn scanned(
    before: ScanModel,
    after: ScanModel,
    dir: PluginDir,
    trust: TrustModel,
) -> bool {
    match dir.versions {
        Err(e) => after.plugins == before.plugins && after.notes == before.notes.push(
            reject_line(dir.name@, e@),
        ),
        Ok(list) => exists|order: Seq<usize>, plugin: Option<PluginModel>, skipped: Seq<SkipModel>|
            #![trigger selected(versions(list@), dir.name@, trust, order, plugin, skipped)]
            ranking(versions(list@), order) && selected(
                versions(list@),
                dir.name@,
                trust,
                order,
                plugin,
                skipped,
            ) && match plugin {
                Some(p) => after.plugins == names::put(before.plugins, dir.name@, p)
                    && after.notes == (before.notes + trial_lines(
                    dir.name@,
                    trust,
                    plugin,
                    skipped,
                )).push(loaded_line(p.manifest)),
                None => after.plugins == before.plugins && after.notes == before.notes
                    + trial_lines(dir.name@, trust, plugin, skipped),
            },
    }
}

/// What scanning the directories did, one after the other: `states[i]` is where the
/// scan stands before directory `i`.
pub open spec fn scanned_all(
    states: Seq<ScanModel>,
    dirs: Seq<PluginDir>,
    trust: TrustModel,
) -> bool {
    &&& states.len() == dirs.len() + 1
    &&& states[0] == (ScanModel { plugins: seq![], notes: seq![] })
    &&& forall|i: int|
        0 <= i < dirs.len() ==> scanned(#[trigger] states[i], states[i + 1], dirs[i], trust)
}

impl Registry {
    /// Full scan. For each plugin name, versions are tried from highest semver
    /// down; the first one that verifies and compiles becomes active.
    pub fn scan(rt: &PluginRuntime, dirs: &[PluginDir], opts: &ScanOptions) -> (r: Self)
        ensures
            exists|states: Seq<ScanModel>| #[trigger]
                scanned_all(states, dirs@, opts@) && states.last().plugins == r@,
    {
        Registry::scan_noting(rt, dirs, opts).0
    }

    /// A full scan, with the lines that it logs.
    pub fn scan_noting(rt: &PluginRuntime, dirs: &[PluginDir], opts: &ScanOptions) -> (r: (
        Self,
        Vec<String>,
    ))
        ensures
            exists|states: Seq<ScanModel>| #[trigger]
                scanned_all(states, dirs@, opts@) && states.last() == (ScanModel {
                    plugins: r.0@,
                    notes: text::texts(r.1@),
                }),
    {
        let mut reg = Registry::default();
        let mut notes: Vec<String> = Vec::new();
        let ghost first = ScanModel { plugins: seq![], notes: seq![] };
        let ghost mut states: Seq<ScanModel> = seq![first];
        assert(text::texts(notes@) =~= Seq::<Text>::empty());
        let mut i: usize = 0;
        while i < dirs.len()
            invariant
                i <= dirs@.len(),
                states.len() == i + 1,
                states[0] == (ScanModel { plugins: seq![], notes: seq![] }),
                states[i as int] == (ScanModel { plugins: reg@, notes: text::texts(notes@) }),
                forall|k: int|
                    0 <= k < i ==> scanned(#[trigger] states[k], states[k + 1], dirs@[k], opts@),
            decreases dirs.len() - i,
        {
            let ghost before = states[i as int];
            let name = dirs[i].name.as_str();
            match &dirs[i].versions {
                Ok(list) => {
                    let found = load_best_version(rt, name, list.as_slice(), opts);
                    let ghost skipped = skips(found.skipped@);
                    let ghost plugin = opt_plugin(found.plugin);
                    let ghost order = choose|order: Seq<usize>| #[trigger]
                        ranking(versions(list@), order) && selected(
                            versions(list@),
                            name@,
                            opts@,
                            order,
                            plugin,
                            skipped,
                        );
                    let mut lines = note_trial(name, opts, &found);
                    let ghost more = text::texts(lines@);
                    notes.append(&mut lines);
                    assert(text::texts(notes@) =~= before.notes + more);
                    if let Some(p) = found.plugin {
                        let line = note_loaded(&p.manifest);
                        let ghost tried = text::texts(notes@);
                        notes.push(line);
                        assert(text::texts(notes@) =~= tried.push(line@));
                        reg.plugins.insert(dirs[i].name.clone(), p);
                    }
                    assert(selected(versions(list@), name@, opts@, order, plugin, skipped));
                },
                Err(e) => {
                    let line = quoted_message(
                        "[registry] plugin '",
                        name,
                        "' rejected: ",
                        e.as_str(),
                        "",
                    );
                    assert(line@ =~= reject_line(name@, e@)) by {
                        reveal_strlit("");
                    }
                    notes.push(line);
                    assert(text::texts(notes@) =~= before.notes.push(line@));
                },
            }
            proof {
                let now = ScanModel { plugins: reg@, notes: text::texts(notes@) };
                assert(scanned(before, now, dirs@[i as int], opts@));
                states = states.push(now);
            }
            i += 1;
        }
        assert(scanned_all(states, dirs@, opts@));
        (reg, notes)
    }

    /// Silent hot update: takes over how one plugin was resolved from disk.
    /// Called between tasks, so in-flight work is never interrupted.
    pub fn reload(&mut self, name: &str, plugin: Option<LoadedPlugin>)
        ensures
            final(self)@ == resolved(old(self)@, name@, opt_plugin(plugin)),
    {
        match plugin {
            Some(p) => {
                self.plugins.insert(name.to_string(), p);
            },
            None => {
                let _ = self.plugins.remove(name);
            },
        }
    }

    pub fn get(&self, name: &str) -> (r: Option<&LoadedPlugin>)
        ensures
            match r {
                Some(p) => names::find(self@, name@) == Some(p@),
                None => names::find(self@, name@) is None,
            },
    {
        self.plugins.get(name)
    }

    /// The plugins of one kind, by name.
    fn of_that_kind(&self, kind: PluginKind) -> (r: Vec<&LoadedPlugin>)
        ensures
            plugin_models(r@) == by_name(self@, of_kind(kind)),
    {
        let mut out: Vec<&LoadedPlugin> = Vec::new();
        let mut i: usize = 0;
        assert(plugin_models(out@) =~= by_name(self@.take(0), of_kind(kind)));
        while i < self.plugins.len()
            invariant
                i <= self@.len(),
                self@ == self.plugins@,
                plugin_models(out@) == by_name(self@.take(i as int), of_kind(kind)),
            decreases self@.len() - i,
        {
            proof {
                let next = self@.take(i + 1);
                assert(next.drop_last() =~= self@.take(i as int));
                assert(next.last() == self@[i as int]);
            }
            let p = self.plugins.value_at(i);
            if p.manifest.kind == kind {
                place(&mut out, p);
            }
            i += 1;
        }
        assert(self@.take(i as int) =~= self@);
        out
    }

    fn names_of_kind(&self, kind: PluginKind) -> (r: Vec<String>)
        ensures
            text::texts(r@) == called(self@, of_kind(kind)),
    {
        let list = self.of_that_kind(kind);
        let out = copy_names(list.as_slice());
        proof {
            let all = by_name(self@, of_kind(kind));
            assert forall|i: int| 0 <= i < all.len() implies #[trigger] text::texts(out@)[i]
                == all[i].manifest.name by {
                assert(plugin_models(list@)[i] == list@[i]@);
            }
            assert(text::texts(out@) =~= called(self@, of_kind(kind)));
        }
        out
    }

    /// The names of the strategies, in order.
    pub fn strategy_names(&self) -> (r: Vec<String>)
        ensures
            text::texts(r@) == called(self@, of_kind(PluginKind::Strategy)),
    {
        self.names_of_kind(PluginKind::Strategy)
    }

    /// The single active strategy plugin (deterministic pick if several exist).
    pub fn strategy(&self) -> (r: Option<&LoadedPlugin>)
        ensures
            opt_plugin_ref(r) == (if by_name(self@, of_kind(PluginKind::Strategy)).len() == 0 {
                None
            } else {
                Some(by_name(self@, of_kind(PluginKind::Strategy))[0])
            }),
    {
        let found = self.of_that_kind(PluginKind::Strategy);
        if found.len() > 0 {
            assert(plugin_models(found@)[0] == found@[0]@);
            Some(found[0])
        } else {
            None
        }
    }

    /// The names of the hooks at `point`, in order.
    pub fn hook_names(&self, point: &str) -> (r: Vec<String>)
        ensures
            text::texts(r@) == called(self@, attached_to(point@)),
    {
        let list = self.hooks_for(point);
        let out = copy_names(list.as_slice());
        proof {
            let all = by_name(self@, attached_to(point@));
            assert forall|i: int| 0 <= i < all.len() implies #[trigger] text::texts(out@)[i]
                == all[i].manifest.name by {
                assert(plugin_models(list@)[i] == list@[i]@);
            }
            assert(text::texts(out@) =~= called(self@, attached_to(point@)));
        }
        out
    }

    /// The hooks at `point`, in name order.
    pub fn hooks_for(&self, point: &str) -> (r: Vec<&LoadedPlugin>)
        ensures
            plugin_models(r@) == by_name(self@, attached_to(point@)),
    {
        let mut out: Vec<&LoadedPlugin> = Vec::new();
        let mut i: usize = 0;
        assert(plugin_models(out@) =~= by_name(self@.take(0), attached_to(point@)));
        while i < self.plugins.len()
            invariant
                i <= self@.len(),
                self@ == self.plugins@,
                plugin_models(out@) == by_name(self@.take(i as int), attached_to(point@)),
            decreases self@.len() - i,
        {
            proof {
                let next = self@.take(i + 1);
                assert(next.drop_last() =~= self@.take(i as int));
                assert(next.last() == self@[i as int]);
            }
            let p = self.plugins.value_at(i);
            if p.manifest.kind == PluginKind::Hook && text::has_text(
                p.manifest.hooks.as_slice(),
                point,
            ) {
                place(&mut out, p);
            }
            i += 1;
        }
        assert(self@.take(i as int) =~= self@);
        out
    }

    /// The names of all plugins, in order.
    pub fn names(&self) -> (r: Vec<String>)
        ensures
            text::texts(r@) == names::names_where(self@, any_plugin()),
    {
        let mut out: Vec<String> = Vec::new();
        let mut i: usize = 0;
        assert(text::texts(out@) =~= names::names_where(self@.take(0), any_plugin()));
        while i < self.plugins.len()
            invariant
                i <= self@.len(),
                self@ == self.plugins@,
                text::texts(out@) == names::names_where(self@.take(i as int), any_plugin()),
            decreases self@.len() - i,
        {
            let ghost before = text::texts(out@);
            proof {
                let next = self@.take(i + 1);
                assert(next.drop_last() =~= self@.take(i as int));
                assert(next.last() == self@[i as int]);
            }
            out.push(self.plugins.name_at(i).clone());
            assert(text::texts(out@) =~= before.push(self@[i as int].0));
            i += 1;
        }
        assert(self@.take(i as int) =~= self@);
        out
    }

    /// The names of the tools, in order.
    pub fn tool_names(&self) -> (r: Vec<String>)
        ensures
            text::texts(r@) == called(self@, of_kind(PluginKind::Tool)),
    {
        self.names_of_kind(PluginKind::Tool)
    }

    /// The tool `name`, if there is one.
    pub fn tool(&self, name: &str) -> (r: Option<&LoadedPlugin>)
        ensures
            opt_plugin_ref(r) == tool_of(self@, name@),
    {
        match self.plugins.get(name) {
            Some(p) => {
                if p.manifest.kind == PluginKind::Tool {
                    Some(p)
                } else {
                    None
                }
            },
            None => None,
        }
    }

    /// Whether a call that went well or not would bring the plugin to the failure
    /// threshold.
    pub fn would_trip(&self, name: &str, ok: bool, max_failures: u32) -> (r: bool)
        ensures
            r == trips(self@, name@, ok, max_failures as nat),
    {
        match self.plugins.get(name) {
            None => false,
            Some(p) => !ok && (p.consecutive_failures >= max_failures || (p.consecutive_failures
                < u32::MAX && p.consecutive_failures + 1 >= max_failures)),
        }
    }

    /// Health accounting. Returns true where the plugin has reached the failure
    /// threshold: its version is then to be marked `.disabled` on disk, and the
    /// previous stable version (if any) to be activated through `reload`.
    pub fn report_result(&mut self, name: &str, ok: bool, max_failures: u32) -> (tripped: bool)
        ensures
            final(self)@ == reported(old(self)@, name@, ok),
            tripped == trips(old(self)@, name@, ok, max_failures as nat),
    {
        let ghost before = self@;
        match self.plugins.remove(name) {
            None => false,
            Some(p) => {
                let mut p = p;
                proof {
                    names::lemma_put_without(before, name@);
                }
                if ok {
                    p.consecutive_failures = 0;
                } else if p.consecutive_failures < u32::MAX {
                    p.consecutive_failures = p.consecutive_failures + 1;
                }
                let tripped = !ok && p.consecutive_failures >= max_failures;
                self.plugins.insert(name.to_string(), p);
                tripped
            },
        }
    }
}

/// The view of an optional reference to a plugin.
pub open spec fn opt_plugin_ref(p: Option<&LoadedPlugin>) -> Option<PluginModel> {
    match p {
        Some(p) => Some(p@),
        None => None,
    }
}

/// The plugins after a number of calls, each of which went well or not.
pub open spec fn after_reports(s: Plugins, reports: Seq<(Text, bool)>) -> Plugins
    decreases reports.len(),
{
    if reports.len() == 0 {
        s
    } else {
        let last = reports.last();
        reported(after_reports(s, reports.drop_last()), last.0, last.1)
    }
}

/// How many of the last calls of `name` did not go well, where `before` did not
/// before the first of them.
pub open spec fn in_a_row(before: nat, reports: Seq<(Text, bool)>, name: Text) -> nat
    decreases reports.len(),
{
    if reports.len() == 0 {
        before
    } else {
        let count = in_a_row(before, reports.drop_last(), name);
        if reports.last().0 != name {
            count
        } else if reports.last().1 {
            0
        } else {
            count + 1
        }
    }
}

proof fn lemma_after_reports(s: Plugins, reports: Seq<(Text, bool)>, name: Text)
    requires
        names::ascending(s),
        names::find(s, name) matches Some(p) ==> p.failures + reports.len() <= u32::MAX,
    ensures
        names::ascending(after_reports(s, reports)),
        match names::find(s, name) {
            Some(p) => in_a_row(p.failures, reports, name) <= p.failures + reports.len()
                && names::find(after_reports(s, reports), name) == Some(
                PluginModel { failures: in_a_row(p.failures, reports, name), ..p },
            ),
            None => names::find(after_reports(s, reports), name) is None,
        },
    decreases reports.len(),
{
    if reports.len() > 0 {
        let before = after_reports(s, reports.drop_last());
        let (who, ok) = reports.last();
        lemma_after_reports(s, reports.drop_last(), name);
        match names::find(before, who) {
            Some(p) => {
                let counted = PluginModel { failures: failures_after(p.failures, ok), ..p };
                names::lemma_put_find(before, who, counted, name);
                names::lemma_put_ascending(before, who, counted);
            },
            None => {},
        }
    }
}

/// A plugin that keeps failing is rolled back, whatever else is called meanwhile.
/// Until then it is the same version that is active, with a count of its last calls
/// that did not go well. A call trips exactly where it does not go well and brings
/// that count to the threshold. Once the directory of the version that failed is
/// marked, the plugin is the highest other version that can be loaded, with a count
/// of zero, and is gone where there is none: every version that outranks it was
/// passed over for a reason. No other plugin changes.
pub proof fn law_consecutive_failures_roll_back(
    s: Plugins,
    reports: Seq<(Text, bool)>,
    name: Text,
    ok: bool,
    max_failures: nat,
    vs: Seq<VersionModel>,
    dir: Text,
    trust: TrustModel,
    order: Seq<usize>,
    plugin: Option<PluginModel>,
    skipped: Seq<SkipModel>,
    other: Text,
)
    requires
        names::ascending(s),
        names::find(s, name) is Some,
        names::find(s, name)->0.failures + reports.len() < u32::MAX,
        vs.len() <= usize::MAX,
        forall|i: int|
            0 <= i < vs.len() && (#[trigger] vs[i]).path == names::find(s, name)->0.dir
                ==> vs[i].disabled,
        ranking(vs, order),
        selected(vs, dir, trust, order, plugin, skipped),
    ensures
        ({
            let active = names::find(s, name)->0;
            let count = in_a_row(active.failures, reports, name);
            let now = after_reports(s, reports);
            let end = resolved(reported(now, name, ok), name, plugin);
            &&& names::find(now, name) == Some(PluginModel { failures: count, ..active })
            &&& trips(now, name, ok, max_failures) <==> !ok && count + 1 >= max_failures
            &&& names::find(end, name) == plugin
            &&& other != name ==> names::find(end, other) == names::find(now, other)
            &&& plugin matches Some(p) ==> p.failures == 0 && p.dir != active.dir && trusted(
                p,
                trust,
            )
            &&& forall|i: int|
                0 <= i < vs.len() && usable(#[trigger] vs[i]) && (plugin is None || outranks(
                    vs,
                    i,
                    order[skipped.len() as int] as int,
                )) ==> was_passed_over(vs[i], dir, trust, skipped)
        }),
{
    let active = names::find(s, name)->0;
    let now = after_reports(s, reports);
    lemma_after_reports(s, reports, name);
    let p = names::find(now, name)->0;
    let counted = PluginModel { failures: failures_after(p.failures, ok), ..p };
    names::lemma_put_find(now, name, counted, other);
    names::lemma_put_ascending(now, name, counted);
    let told = reported(now, name, ok);
    names::lemma_without_find(told, name, other);
    names::lemma_without_find(told, name, name);
    if plugin is Some {
        names::lemma_put_find(told, name, plugin->0, other);
        names::lemma_put_find(told, name, plugin->0, name);
        let i = order[skipped.len() as int] as int;
        assert(usable(vs[i]));
        assert(vs[i].path == plugin->0.dir);
        law_only_trusted_code_is_selected(vs, dir, trust, order, plugin->0, skipped);
    }
    assert forall|i: int|
        0 <= i < vs.len() && usable(#[trigger] vs[i]) && (plugin is None || outranks(
            vs,
            i,
            order[skipped.len() as int] as int,
        )) implies was_passed_over(vs[i], dir, trust, skipped) by {
        if plugin is Some {
            law_highest_loadable_version_wins(
                vs,
                dir,
                trust,
                order,
                plugin->0,
                skipped,
                i,
            );
        } else {
            let a = choose|a: int| 0 <= a < order.len() && order[a] == i as usize;
            assert(passed_over(vs[i], dir, trust, skipped[a]));
        }
    }
}

/// A version is admitted exactly where all is in order: its manifest can be read and is
/// one, its code can be read, the manifest has the name of the plugin's directory and the
/// version of its own, and the signature is trusted.
pub proof fn law_a_version_in_order_is_admitted(
    v: VersionModel,
    name: Text,
    trust: TrustModel,
    m: ManifestModel,
)
    ensures
        admitted(v, name, trust) == Ok::<ManifestModel, Text>(m) <==> v.manifest is Ok
            && manifest::manifest_of(v.manifest->Ok_0) == Some(m) && v.wasm is Ok && m.name == name
            && semver_valid(m.version) && semver_le(m.version, v.name) && semver_le(
            v.name,
            m.version,
        ) && (trust.pubkey is Some && manifest::verify_problem(
            m,
            v.wasm->Ok_0,
            trust.pubkey->0,
        ) is None || trust.pubkey is None && trust.allow_unsigned),
{
}

/// Where nothing can be trusted nothing is loaded, and the reason is given.
pub proof fn law_nothing_is_trusted_by_default(m: ManifestModel, wasm: Seq<u8>, trust: TrustModel)
    requires
        trust.pubkey is None,
        !trust.allow_unsigned,
    ensures
        trust_problem(m, wasm, trust) == Some(
            "no trusted_pubkey configured and dev_allow_unsigned is off"@,
        ),
{
}

/// The best of the usable versions is tried first: it is usable, no usable version is
/// higher, and every usable one is in the ranking.
pub proof fn law_the_highest_version_is_tried_first(
    vs: Seq<VersionModel>,
    order: Seq<usize>,
    i: int,
)
    requires
        ranking(vs, order),
        vs.len() <= usize::MAX,
        0 <= i < vs.len(),
        vs[i].is_dir && !vs[i].disabled && semver_valid(vs[i].name),
        i != order[0],
    ensures
        order.len() > 0,
        order[0] < vs.len(),
        vs[order[0] as int].is_dir && !vs[order[0] as int].disabled,
        semver_le(vs[i].name, vs[order[0] as int].name),
{
    assert(usable(vs[i]));
    let a = choose|a: int| 0 <= a < order.len() && order[a] == i as usize;
    assert(usable(vs[order[0] as int]));
    assert(outranks(vs, order[0] as int, order[a] as int));
}

/// What was passed over is told of in its order, each version with its reason, and with a
/// warning where it was about to be loaded without a signature.
pub proof fn law_what_is_passed_over_is_told(name: Text, a: Seq<SkipModel>, b: Seq<SkipModel>)
    ensures
        skip_lines(name, a + b) == skip_lines(name, a) + skip_lines(name, b),
        a.len() == 0 ==> skip_lines(name, a).len() == 0,
        a.len() == 1 && !a[0].unsigned ==> skip_lines(name, a) == seq![
            "[registry] "@ + name + "/"@ + a[0].version + " skipped: "@ + a[0].why,
        ],
        a.len() == 1 && a[0].unsigned ==> skip_lines(name, a) == seq![
            "[registry] WARNING: loading UNSIGNED plugin '"@ + name + "' (dev mode)"@,
            "[registry] "@ + name + "/"@ + a[0].version + " skipped: "@ + a[0].why,
        ],
    decreases b.len(),
{
    if a.len() == 1 {
        assert(a.drop_last() =~= Seq::<SkipModel>::empty());
        reveal_with_fuel(skip_lines, 2);
        let line = "[registry] "@ + name + "/"@ + a[0].version + " skipped: "@ + a[0].why;
        if a[0].unsigned {
            assert(skip_lines(name, a) =~= seq![
                "[registry] WARNING: loading UNSIGNED plugin '"@ + name + "' (dev mode)"@,
                line,
            ]);
        } else {
            assert(skip_lines(name, a) =~= seq![line]);
        }
    }
    if b.len() == 0 {
        assert(a + b =~= a);
        assert(skip_lines(name, a) + skip_lines(name, b) =~= skip_lines(name, a));
    } else {
        assert((a + b).drop_last() =~= a + b.drop_last());
        law_what_is_passed_over_is_told(name, a, b.drop_last());
        assert(skip_lines(name, a + b) =~= skip_lines(name, a) + skip_lines(name, b));
    }
}

/// What is selected bears the name of its directory.
pub proof fn law_what_is_selected_bears_its_name(
    vs: Seq<VersionModel>,
    name: Text,
    trust: TrustModel,
    order: Seq<usize>,
    plugin: PluginModel,
    skipped: Seq<SkipModel>,
)
    requires
        selected(vs, name, trust, order, Some(plugin), skipped),
    ensures
        plugin.manifest.name == name,
        plugin.failures == 0,
        exists|i: int|
            0 <= i < order.len() && plugin.dir == vs[(#[trigger] order[i]) as int].path
                && vs[order[i] as int].wasm == Ok::<Seq<u8>, Text>(plugin.code),
{
    let i = skipped.len() as int;
    assert(plugin.dir == vs[order[i] as int].path);
}

/// What the registry logs says what it did: which plugin was loaded, in which version and
/// of which kind, which one was updated or removed, and which one is rolled back.
pub proof fn law_the_log_says_what_was_done(m: ManifestModel, name: Text, p: PluginModel, why: Text)
    ensures
        loaded_line(m) == "[registry] loaded "@ + m.name + " v"@ + m.version + " ("@ + (
        match m.kind {
            PluginKind::Tool => "Tool"@,
            PluginKind::Strategy => "Strategy"@,
            PluginKind::Hook => "Hook"@,
        }) + ")"@,
        update_line(name, Some(p)) == "[registry] hot-updated "@ + name + " -> v"@
            + p.manifest.version,
        update_line(name, None) == "[registry] plugin '"@ + name
            + "' removed (no loadable version)"@,
        rollback_line(name, m.version) == "[registry] plugin '"@ + name + "' v"@ + m.version
            + " disabled, rolling back"@,
        reject_line(name, why) == "[registry] plugin '"@ + name + "' rejected: "@ + why,
{
}

/// What trying versions leaves in the log: what is said of those that were passed over,
/// and then a warning where the chosen one is loaded without a signature.
pub proof fn law_unsigned_plugins_are_warned_of(
    name: Text,
    trust: TrustModel,
    plugin: Option<PluginModel>,
    skipped: Seq<SkipModel>,
)
    ensures
        plugin is Some && trust.pubkey is None ==> trial_lines(name, trust, plugin, skipped)
            == skip_lines(name, skipped).push(
            "[registry] WARNING: loading UNSIGNED plugin '"@ + name + "' (dev mode)"@,
        ),
        plugin is None || trust.pubkey is Some ==> trial_lines(name, trust, plugin, skipped)
            == skip_lines(name, skipped),
{
    let line = "[registry] WARNING: loading UNSIGNED plugin '"@ + name + "' (dev mode)"@;
    assert(skip_lines(name, skipped) + seq![line] =~= skip_lines(name, skipped).push(line));
    assert(skip_lines(name, skipped) + Seq::<Text>::empty() =~= skip_lines(name, skipped));
}

/// Versions are tried from the highest down: all that are tried are directories that are
/// not disabled and whose names are versions, and of two that are tried the one that is
/// tried first is at least as high.
pub proof fn law_versions_are_tried_from_the_highest_down(
    vs: Seq<VersionModel>,
    order: Seq<usize>,
    a: int,
    b: int,
)
    requires
        ranking(vs, order),
        0 <= a < b < order.len(),
    ensures
        order[a] < vs.len() && order[b] < vs.len() && order[a] != order[b],
        semver_le(vs[order[b] as int].name, vs[order[a] as int].name),
        vs[order[a] as int].is_dir && !vs[order[a] as int].disabled && semver_valid(
            vs[order[a] as int].name,
        ),
        semver_le(vs[order[a] as int].name, vs[order[b] as int].name) ==> order[a] < order[b],
{
    assert(usable(vs[order[a] as int]));
    assert(outranks(vs, order[a] as int, order[b] as int));
    assert(order[b] < vs.len());
}

/// Only bad versions are passed over: each of them was not admitted, and that is the
/// reason that is given, or its code did not compile.
pub proof fn law_only_bad_versions_are_passed_over(
    vs: Seq<VersionModel>,
    name: Text,
    trust: TrustModel,
    order: Seq<usize>,
    plugin: Option<PluginModel>,
    skipped: Seq<SkipModel>,
    a: int,
)
    requires
        selected(vs, name, trust, order, plugin, skipped),
        0 <= a < skipped.len(),
    ensures
        skipped[a].version == vs[order[a] as int].name,
        admitted(vs[order[a] as int], name, trust) matches Err(e) ==> skipped[a].why == e,
        admitted(vs[order[a] as int], name, trust) is Ok ==> exists|e: Text| #[trigger]
            host::may_compile(vs[order[a] as int].wasm->Ok_0, Err(e)) && skipped[a].why
                == "wasm compilation failed: "@ + e,
        plugin is None ==> skipped.len() == order.len(),
{
    assert(passed_over(vs[order[a] as int], name, trust, skipped[a]));
}

} // verus!
