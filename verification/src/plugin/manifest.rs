//! Plugin package = code + manifest. The signature covers
//! sha256(wasm) plus name/version/kind and the canonicalized permission set,
//! so tampering with either code or declared permissions breaks verification.

use crate::json;
use crate::json::ObjectWriter;
use crate::plugin::abi;
use crate::plugin::crypto;
use crate::record;
use crate::text;
use crate::text::Text;
use vstd::prelude::*;
use vstd::utf8;

verus! {

#[derive(Debug)]
pub struct Manifest {
    pub name: String,
    /// Semver, e.g. "1.2.0".
    pub version: String,
    /// "tool" | "strategy" | "hook"
    pub kind: PluginKind,
    /// Hook points this plugin attaches to (kind == "hook").
    pub hooks: Vec<String>,
    pub permissions: Permissions,
    /// Hex ed25519 signature. Absent only in dev_allow_unsigned mode.
    pub signature: Option<String>,
}

#[derive(Debug, Clone, Copy, PartialEq, Eq, Structural)]
pub enum PluginKind {
    Tool,
    Strategy,
    Hook,
}

#[derive(Debug)]
pub struct Permissions {
    /// May the plugin see conversation context in its input?
    pub context: bool,
    /// Capabilities reachable through `host_call`, e.g. "device:relay0",
    /// "net:192.168.1.10:80". Zero permissions by default.
    pub capabilities: Vec<String>,
}

impl Default for Permissions {
    fn default() -> (r: Self)
        ensures
            !r.context,
            text::texts(r.capabilities@) == Seq::<Text>::empty(),
    {
        let capabilities: Vec<String> = Vec::new();
        assert(text::texts(capabilities@) =~= Seq::<Text>::empty());
        Permissions { context: false, capabilities }
    }
}

/// A manifest as the contracts see it.
pub struct ManifestModel {
    pub name: Text,
    pub version: Text,
    pub kind: PluginKind,
    pub hooks: Seq<Text>,
    pub context: bool,
    pub capabilities: Seq<Text>,
    pub signature: Option<Text>,
}

impl View for Manifest {
    type V = ManifestModel;

    open spec fn view(&self) -> ManifestModel {
        ManifestModel {
            name: self.name@,
            version: self.version@,
            kind: self.kind,
            hooks: text::texts(self.hooks@),
            context: self.permissions.context,
            capabilities: text::texts(self.permissions.capabilities@),
            signature: text::opt_text(self.signature),
        }
    }
}

impl Clone for Manifest {
    fn clone(&self) -> (r: Self)
        ensures
            r@ == self@,
    {
        let signature = match &self.signature {
            Some(s) => Some(s.clone()),
            None => None,
        };
        Manifest {
            name: self.name.clone(),
            version: self.version.clone(),
            kind: self.kind,
            hooks: text::copy_texts(self.hooks.as_slice()),
            permissions: Permissions {
                context: self.permissions.context,
                capabilities: text::copy_texts(self.permissions.capabilities.as_slice()),
            },
            signature,
        }
    }
}

/// The name of a kind.
pub open spec fn kind_name(kind: PluginKind) -> Text {
    match kind {
        PluginKind::Tool => "tool"@,
        PluginKind::Strategy => "strategy"@,
        PluginKind::Hook => "hook"@,
    }
}

impl PluginKind {
    /// The name of the kind.
    pub fn name(self) -> (r: &'static str)
        ensures
            r@ == kind_name(self),
    {
        match self {
            PluginKind::Tool => "tool",
            PluginKind::Strategy => "strategy",
            PluginKind::Hook => "hook",
        }
    }
}

/// The members of the document that the signature covers: everything in the
/// manifest but the signature itself, and the digest of the code. The lists
/// are sorted, so their order does not matter.
pub open spec fn payload_members(m: ManifestModel, digest: Seq<u8>) -> Seq<(Text, Text)> {
    seq![
        ("capabilities"@, json::array_text(json::quoted_all(text::arranged(m.capabilities)))),
        ("context"@, abi::bool_text(m.context)),
        ("hooks"@, json::array_text(json::quoted_all(text::arranged(m.hooks)))),
        ("kind"@, json::quoted(kind_name(m.kind))),
        ("name"@, json::quoted(m.name)),
        ("version"@, json::quoted(m.version)),
        ("wasm_sha256"@, json::quoted(crypto::hex_text(digest))),
    ]
}

/// The document that the signature covers.
pub open spec fn payload_text(m: ManifestModel, digest: Seq<u8>) -> Text {
    json::object_text(payload_members(m, digest))
}

/// The exact bytes that the distribution signature covers.
pub open spec fn payload(m: ManifestModel, wasm: Seq<u8>) -> Seq<u8> {
    utf8::encode_utf8(payload_text(m, crypto::sha256_of(wasm)))
}

/// What is wrong with the signature of `m` for `wasm` under `key`, if anything.
pub open spec fn verify_problem(m: ManifestModel, wasm: Seq<u8>, key: Seq<u8>) -> Option<Text> {
    match m.signature {
        None => Some("manifest has no signature"@),
        Some(digits) => if !crypto::is_hex(digits) {
            Some(crypto::hex_problem(digits))
        } else if crypto::hex_bytes(digits).len() != 64 {
            Some("signature is not 64 bytes"@)
        } else {
            match crypto::ed25519_problem(key, payload(m, wasm), crypto::hex_bytes(digits)) {
                Some(e) => Some("signature verification failed: "@ + e),
                None => None,
            }
        },
    }
}

/// An ed25519 public key. Its 32 bytes are the view.
#[derive(Debug)]
pub struct PublicKey {
    bytes: Vec<u8>,
}

impl View for PublicKey {
    type V = Seq<u8>;

    closed spec fn view(&self) -> Seq<u8> {
        self.bytes@
    }
}

impl PublicKey {
    #[verifier::type_invariant]
    spec fn wf(self) -> bool {
        self.bytes@.len() == 32 && crypto::ed25519_point(self.bytes@)
    }

    /// The key with these bytes. `None` where they are not 32, or not a key.
    pub fn from_bytes(bytes: &[u8]) -> (r: Option<Self>)
        ensures
            r is Some <==> bytes@.len() == 32 && crypto::ed25519_point(bytes@),
            r matches Some(key) ==> key@ == bytes@,
    {
        if bytes.len() != 32 {
            return None;
        }
        match crypto::check_public_key(bytes) {
            Ok(()) => Some(PublicKey { bytes: copy_bytes(bytes) }),
            Err(_) => None,
        }
    }

    pub fn to_bytes(&self) -> (r: Vec<u8>)
        ensures
            r@ == self@,
    {
        copy_bytes(self.bytes.as_slice())
    }

    /// What is wrong with `signature` as a signature of `message` under this key.
    fn problem(&self, message: &[u8], signature: &[u8]) -> (r: Option<String>)
        requires
            signature@.len() == 64,
        ensures
            text::opt_text(r) == crypto::ed25519_problem(self@, message@, signature@),
    {
        proof {
            use_type_invariant(self);
        }
        crypto::signature_problem(self.bytes.as_slice(), message, signature)
    }
}

fn copy_bytes(bytes: &[u8]) -> (r: Vec<u8>)
    ensures
        r@ == bytes@,
{
    let mut out: Vec<u8> = Vec::new();
    let mut i: usize = 0;
    while i < bytes.len()
        invariant
            i <= bytes@.len(),
            out@ == bytes@.take(i as int),
        decreases bytes.len() - i,
    {
        out.push(bytes[i]);
        assert(bytes@.take(i + 1) =~= bytes@.take(i as int).push(bytes@[i as int]));
        i += 1;
    }
    assert(bytes@.take(i as int) =~= bytes@);
    out
}

impl Manifest {
    /// The exact bytes the distribution signature covers.
    pub fn signing_payload(&self, wasm: &[u8]) -> (r: Vec<u8>)
        ensures
            r@ == payload(self@, wasm@),
    {
        let digest = crypto::sha256(wasm);
        let caps = text::sort_texts(self.permissions.capabilities.as_slice());
        let hooks = text::sort_texts(self.hooks.as_slice());
        let caps_json = json::string_array(caps.as_slice());
        let hooks_json = json::string_array(hooks.as_slice());
        let context = if self.permissions.context {
            "true"
        } else {
            "false"
        };
        let digits = crypto::hex_encode(digest.as_slice());
        let w = ObjectWriter::new().raw("capabilities", caps_json.text.as_str()).raw(
            "context",
            context,
        ).raw("hooks", hooks_json.text.as_str()).string("kind", self.kind.name()).string(
            "name",
            self.name.as_str(),
        ).string("version", self.version.as_str()).string("wasm_sha256", digits.as_str());
        assert(w@ =~= payload_members(self@, crypto::sha256_of(wasm@)));
        let document = w.close();
        copy_bytes(document.text.as_str().as_bytes())
    }

    /// Accepts the manifest only with a signature of itself and of `wasm`
    /// under `pubkey`.
    pub fn verify(&self, wasm: &[u8], pubkey: &PublicKey) -> (r: Result<(), String>)
        ensures
            match verify_problem(self@, wasm@, pubkey@) {
                Some(e) => r is Err && r->Err_0@ == e,
                None => r is Ok,
            },
    {
        match &self.signature {
            None => Err("manifest has no signature".to_string()),
            Some(digits) => match crypto::hex_decode(digits.as_str()) {
                Err(e) => Err(e),
                Ok(signature) => {
                    if signature.len() != 64 {
                        return Err("signature is not 64 bytes".to_string());
                    }
                    let message = self.signing_payload(wasm);
                    match pubkey.problem(message.as_slice(), signature.as_slice()) {
                        None => Ok(()),
                        Some(e) => {
                            let mut why = "signature verification failed: ".to_string();
                            why.append(e.as_str());
                            Err(why)
                        },
                    }
                },
            },
        }
    }
}

/// The 32 bytes that a key's text gives: hexadecimal, between white space. `what`
/// says whose length is wrong.
pub open spec fn key_bytes(t: Text, what: Text) -> Result<Seq<u8>, Text> {
    let digits = text::trimmed(t);
    if !crypto::is_hex(digits) {
        Err(crypto::hex_problem(digits))
    } else if crypto::hex_bytes(digits).len() != 32 {
        Err(what + " is not 32 bytes"@)
    } else {
        Ok(crypto::hex_bytes(digits))
    }
}

/// The public key that a text gives.
pub open spec fn pubkey_of(t: Text) -> Result<Seq<u8>, Text> {
    match key_bytes(t, "public key"@) {
        Ok(bytes) => if crypto::ed25519_point(bytes) {
            Ok(bytes)
        } else {
            Err(crypto::ed25519_refusal(bytes))
        },
        Err(e) => Err(e),
    }
}

fn read_key(text: &str, what: &str) -> (r: Result<Vec<u8>, String>)
    ensures
        match key_bytes(text@, what@) {
            Ok(bytes) => r is Ok && r->Ok_0@ == bytes,
            Err(e) => r is Err && r->Err_0@ == e,
        },
{
    match crypto::hex_decode(text::trim(text)) {
        Err(e) => Err(e),
        Ok(bytes) => {
            if bytes.len() != 32 {
                let mut why = what.to_string();
                why.append(" is not 32 bytes");
                Err(why)
            } else {
                Ok(bytes)
            }
        },
    }
}

/// Reads a public key: 32 bytes in hexadecimal, between white space.
pub fn parse_pubkey(hex_key: &str) -> (r: Result<PublicKey, String>)
    ensures
        match pubkey_of(hex_key@) {
            Ok(bytes) => r is Ok && r->Ok_0@ == bytes,
            Err(e) => r is Err && r->Err_0@ == e,
        },
{
    match read_key(hex_key, "public key") {
        Err(e) => Err(e),
        Ok(bytes) => match crypto::check_public_key(bytes.as_slice()) {
            Ok(()) => Ok(PublicKey { bytes }),
            Err(e) => Err(e),
        },
    }
}

/// The two texts of a key pair, secret and public, for distribution.
pub fn key_texts(secret: &[u8]) -> (r: (String, String))
    requires
        secret@.len() == 32,
    ensures
        r.0@ == crypto::hex_text(secret@),
        r.1@ == crypto::hex_text(crypto::ed25519_public(secret@)),
        crypto::ed25519_point(crypto::hex_bytes(r.1@)),
{
    let public = crypto::public_key_of(secret);
    proof {
        crypto::law_hex_round_trip(public@);
    }
    (crypto::hex_encode(secret), crypto::hex_encode(public.as_slice()))
}

impl Manifest {
    /// Signs the manifest and `wasm` with the secret key that `key_text` gives.
    /// What was signed is accepted under the public key of that secret.
    pub fn sign(&mut self, wasm: &[u8], key_text: &str) -> (r: Result<(), String>)
        ensures
            match key_bytes(key_text@, "secret key"@) {
                Ok(secret) => {
                    &&& r is Ok
                    &&& final(self)@ == (ManifestModel {
                        signature: Some(
                            crypto::hex_text(
                                crypto::ed25519_signature(secret, payload(old(self)@, wasm@)),
                            ),
                        ),
                        ..old(self)@
                    })
                    &&& verify_problem(
                        final(self)@,
                        wasm@,
                        crypto::ed25519_public(secret),
                    ) is None
                },
                Err(e) => r is Err && r->Err_0@ == e && final(self)@ == old(self)@,
            },
    {
        match read_key(key_text, "secret key") {
            Err(e) => Err(e),
            Ok(secret) => {
                let message = self.signing_payload(wasm);
                let signature = crypto::sign_message(secret.as_slice(), message.as_slice());
                proof {
                    crypto::law_hex_round_trip(signature@);
                }
                let ghost before = self@;
                self.signature = Some(crypto::hex_encode(signature.as_slice()));
                proof {
                    lemma_payload_without_signature(self@, before, wasm@);
                }
                Ok(())
            },
        }
    }
}

proof fn lemma_payload_without_signature(a: ManifestModel, b: ManifestModel, wasm: Seq<u8>)
    requires
        a == (ManifestModel { signature: a.signature, ..b }),
    ensures
        payload(a, wasm) == payload(b, wasm),
{
}

/// The fields of a manifest, in the order of its positional form.
pub open spec fn manifest_names() -> Seq<Text> {
    seq!["name"@, "version"@, "kind"@, "hooks"@, "permissions"@, "signature"@]
}

/// The fields of the permissions, in the order of their positional form.
pub open spec fn permission_names() -> Seq<Text> {
    seq!["context"@, "capabilities"@]
}

/// The strings of the array that `document` is; `None` where it is no array of
/// strings.
pub open spec fn strings_of(document: Text) -> Option<Seq<Text>> {
    match json::json_elements(document) {
        Some(e) => if forall|i: int|
            0 <= i < e.len() ==> json::json_string(#[trigger] e[i]) is Some {
            Some(Seq::new(e.len(), |i: int| json::json_string(e[i])->0))
        } else {
            None
        },
        None => None,
    }
}

/// A list of strings that may be left out.
pub open spec fn list_field(field: Option<Text>) -> Option<Seq<Text>> {
    match field {
        Some(t) => strings_of(t),
        None => Some(seq![]),
    }
}

/// A truth value that may be left out.
pub open spec fn flag_field(field: Option<Text>) -> Option<bool> {
    match field {
        Some(t) => abi::bool_field(field),
        None => Some(false),
    }
}

/// A kind is its name, or an object with the name for its only key and null
/// for its value.
pub open spec fn kind_of(field: Text) -> Option<PluginKind> {
    if field == "\"tool\""@ || field == "{\"tool\":null}"@ {
        Some(PluginKind::Tool)
    } else if field == "\"strategy\""@ || field == "{\"strategy\":null}"@ {
        Some(PluginKind::Strategy)
    } else if field == "\"hook\""@ || field == "{\"hook\":null}"@ {
        Some(PluginKind::Hook)
    } else {
        None
    }
}

/// The context permission and the capabilities that a field declares.
pub open spec fn permissions_of(field: Option<Text>) -> Option<(bool, Seq<Text>)> {
    match field {
        None => Some((false, seq![])),
        Some(t) => match record::record(t, permission_names()) {
            Some(f) => match (flag_field(f[0]), list_field(f[1])) {
                (Some(context), Some(capabilities)) => Some((context, capabilities)),
                _ => None,
            },
            None => None,
        },
    }
}

/// The manifest that `document` is. `None` where it is none: a required field
/// is missing, a field has the wrong shape, occurs twice or is unknown.
pub open spec fn manifest_of(document: Text) -> Option<ManifestModel> {
    match record::record(document, manifest_names()) {
        Some(f) => if !record::repeats_nowhere(document) || f[2] is None {
            None
        } else {
            match (
                record::string_field(f[0]),
                record::string_field(f[1]),
                kind_of(f[2]->0),
                list_field(f[3]),
                permissions_of(f[4]),
                record::string_field(f[5]),
            ) {
                (
                    Some(Some(name)),
                    Some(Some(version)),
                    Some(kind),
                    Some(hooks),
                    Some((context, capabilities)),
                    Some(signature),
                ) => Some(
                    ManifestModel { name, version, kind, hooks, context, capabilities, signature },
                ),
                _ => None,
            }
        },
        None => None,
    }
}

fn read_strings(document: &str) -> (r: Option<Vec<String>>)
    ensures
        r is Some <==> strings_of(document@) is Some,
        r matches Some(v) ==> Some(text::texts(v@)) == strings_of(document@),
{
    let elements = match json::read_elements(document) {
        Some(e) => e,
        None => {
            return None;
        },
    };
    let ghost all = text::texts(elements@);
    let mut out: Vec<String> = Vec::new();
    let mut i: usize = 0;
    while i < elements.len()
        invariant
            i <= elements@.len(),
            all == text::texts(elements@),
            json::json_elements(document@) == Some(all),
            out@.len() == i,
            forall|j: int|
                0 <= j < i ==> json::json_string(#[trigger] all[j]) == Some(out@[j]@),
        decreases elements.len() - i,
    {
        match json::read_string(elements[i].as_str()) {
            Some(s) => {
                out.push(s);
            },
            None => {
                assert(json::json_string(all[i as int]) is None);
                return None;
            },
        }
        i += 1;
    }
    assert(text::texts(out@) =~= Seq::new(all.len(), |i: int| json::json_string(all[i])->0));
    Some(out)
}

fn read_list_field(field: &Option<String>) -> (r: Option<Vec<String>>)
    ensures
        r is Some <==> list_field(text::opt_text(*field)) is Some,
        r matches Some(v) ==> Some(text::texts(v@)) == list_field(text::opt_text(*field)),
{
    match field {
        Some(t) => read_strings(t.as_str()),
        None => {
            let none: Vec<String> = Vec::new();
            assert(text::texts(none@) =~= Seq::<Text>::empty());
            Some(none)
        },
    }
}

fn read_flag_field(field: &Option<String>) -> (r: Option<bool>)
    ensures
        r == flag_field(text::opt_text(*field)),
{
    match field {
        Some(_) => abi::read_bool_field(field),
        None => Some(false),
    }
}

fn read_kind(field: &str) -> (r: Option<PluginKind>)
    ensures
        r == kind_of(field@),
{
    if text::same_text(field, "\"tool\"") || text::same_text(field, "{\"tool\":null}") {
        Some(PluginKind::Tool)
    } else if text::same_text(field, "\"strategy\"") || text::same_text(
        field,
        "{\"strategy\":null}",
    ) {
        Some(PluginKind::Strategy)
    } else if text::same_text(field, "\"hook\"") || text::same_text(field, "{\"hook\":null}") {
        Some(PluginKind::Hook)
    } else {
        None
    }
}

fn read_permissions(field: &Option<String>) -> (r: Option<Permissions>)
    ensures
        r is Some <==> permissions_of(text::opt_text(*field)) is Some,
        r matches Some(p) ==> Some((p.context, text::texts(p.capabilities@))) == permissions_of(
            text::opt_text(*field),
        ),
{
    match field {
        None => Some(Permissions::default()),
        Some(t) => {
            let names = ["context", "capabilities"];
            assert(record::names_of(names@) =~= permission_names());
            let fields = match record::read_record(t.as_str(), names.as_slice()) {
                Some(f) => f,
                None => {
                    return None;
                },
            };
            let ghost f = record::opt_texts(fields@);
            assert(f.len() == 2);
            assert(fields@.len() == 2);
            match (read_flag_field(&fields[0]), read_list_field(&fields[1])) {
                (Some(context), Some(capabilities)) => Some(Permissions { context, capabilities }),
                _ => None,
            }
        },
    }
}

impl Manifest {
    /// Reads a manifest. `None` where the document is none.
    pub fn from_json(document: &str) -> (r: Option<Self>)
        ensures
            r is Some <==> manifest_of(document@) is Some,
            r matches Some(m) ==> Some(m@) == manifest_of(document@),
    {
        let names = ["name", "version", "kind", "hooks", "permissions", "signature"];
        assert(record::names_of(names@) =~= manifest_names());
        let fields = match record::read_record(document, names.as_slice()) {
            Some(f) => f,
            None => {
                return None;
            },
        };
        let ghost f = record::opt_texts(fields@);
        assert(f.len() == 6);
        assert(fields@.len() == 6);
        if !record::has_no_repeats(document) {
            return None;
        }
        let kind = match &fields[2] {
            Some(t) => match read_kind(t.as_str()) {
                Some(k) => k,
                None => {
                    return None;
                },
            },
            None => {
                return None;
            },
        };
        let name = match record::read_string_field(&fields[0]) {
            Some(Some(s)) => s,
            _ => {
                return None;
            },
        };
        let version = match record::read_string_field(&fields[1]) {
            Some(Some(s)) => s,
            _ => {
                return None;
            },
        };
        let hooks = match read_list_field(&fields[3]) {
            Some(v) => v,
            None => {
                return None;
            },
        };
        let permissions = match read_permissions(&fields[4]) {
            Some(p) => p,
            None => {
                return None;
            },
        };
        let signature = match record::read_string_field(&fields[5]) {
            Some(s) => s,
            None => {
                return None;
            },
        };
        Some(Manifest { name, version, kind, hooks, permissions, signature })
    }
}

/// The order in which hooks and capabilities are listed does not matter to the
/// signature.
pub proof fn law_payload_ignores_list_order(a: ManifestModel, b: ManifestModel, wasm: Seq<u8>)
    requires
        a.name == b.name,
        a.version == b.version,
        a.kind == b.kind,
        a.context == b.context,
        a.hooks.to_multiset() == b.hooks.to_multiset(),
        a.capabilities.to_multiset() == b.capabilities.to_multiset(),
    ensures
        payload(a, wasm) == payload(b, wasm),
{
    text::lemma_arranged(a.hooks);
    text::lemma_arranged(b.hooks);
    text::lemma_sorted_arrangement_unique(text::arranged(a.hooks), text::arranged(b.hooks));
    text::lemma_arranged(a.capabilities);
    text::lemma_arranged(b.capabilities);
    text::lemma_sorted_arrangement_unique(
        text::arranged(a.capabilities),
        text::arranged(b.capabilities),
    );
}

proof fn lemma_bool_ends(a: bool, b: bool, x: Text, y: Text)
    requires
        abi::bool_text(a) + x == abi::bool_text(b) + y,
    ensures
        a == b,
        x == y,
{
    reveal_strlit("true");
    reveal_strlit("false");
    if a != b {
        assert((abi::bool_text(a) + x)[0] == abi::bool_text(a)[0]);
        assert((abi::bool_text(b) + y)[0] == abi::bool_text(b)[0]);
    }
    json::lemma_same_rest(abi::bool_text(a), x, y);
}

proof fn lemma_kind_name_injective(a: PluginKind, b: PluginKind)
    requires
        kind_name(a) == kind_name(b),
    ensures
        a == b,
{
    reveal_strlit("tool");
    reveal_strlit("strategy");
    reveal_strlit("hook");
    assert("tool"@[0] == 't');
    assert("strategy"@[0] == 's');
    assert("hook"@[0] == 'h');
}

/// The signature covers the code and every declaration: manifests that are
/// signed by the same bytes agree in name, version, kind, context permission,
/// hooks and capabilities (but for the order of the lists), and their code has
/// the same digest. So changing any of these changes what has to be signed.
pub proof fn law_signature_covers_everything(
    a: ManifestModel,
    b: ManifestModel,
    wasm_a: Seq<u8>,
    wasm_b: Seq<u8>,
)
    requires
        payload(a, wasm_a) == payload(b, wasm_b),
    ensures
        a.name == b.name,
        a.version == b.version,
        a.kind == b.kind,
        a.context == b.context,
        a.hooks.to_multiset() == b.hooks.to_multiset(),
        a.capabilities.to_multiset() == b.capabilities.to_multiset(),
        crypto::sha256_of(wasm_a) == crypto::sha256_of(wasm_b),
{
    let da = crypto::sha256_of(wasm_a);
    let db = crypto::sha256_of(wasm_b);
    text::lemma_same_bytes(payload_text(a, da), payload_text(b, db));
    let ma = payload_members(a, da);
    let mb = payload_members(b, db);
    assert(json::object_text(ma) =~= seq!['{'] + (json::joined(json::member_texts(ma)) + seq!['}']));
    assert(json::object_text(mb) =~= seq!['{'] + (json::joined(json::member_texts(mb)) + seq!['}']));
    json::lemma_same_rest(
        seq!['{'],
        json::joined(json::member_texts(ma)) + seq!['}'],
        json::joined(json::member_texts(mb)) + seq!['}'],
    );
    json::lemma_first_member(ma, mb);
    json::lemma_string_array_ends(
        text::arranged(a.capabilities),
        text::arranged(b.capabilities),
        json::after_first_value(ma),
        json::after_first_value(mb),
    );
    json::lemma_next_member(ma, mb);
    let (ma, mb) = (ma.drop_first(), mb.drop_first());
    json::lemma_first_member(ma, mb);
    lemma_bool_ends(
        a.context,
        b.context,
        json::after_first_value(ma),
        json::after_first_value(mb),
    );
    json::lemma_next_member(ma, mb);
    let (ma, mb) = (ma.drop_first(), mb.drop_first());
    json::lemma_first_member(ma, mb);
    json::lemma_string_array_ends(
        text::arranged(a.hooks),
        text::arranged(b.hooks),
        json::after_first_value(ma),
        json::after_first_value(mb),
    );
    json::lemma_next_member(ma, mb);
    let (ma, mb) = (ma.drop_first(), mb.drop_first());
    json::lemma_first_member(ma, mb);
    json::lemma_quoted_ends(
        kind_name(a.kind),
        kind_name(b.kind),
        json::after_first_value(ma),
        json::after_first_value(mb),
    );
    lemma_kind_name_injective(a.kind, b.kind);
    json::lemma_next_member(ma, mb);
    let (ma, mb) = (ma.drop_first(), mb.drop_first());
    json::lemma_first_member(ma, mb);
    json::lemma_quoted_ends(
        a.name,
        b.name,
        json::after_first_value(ma),
        json::after_first_value(mb),
    );
    json::lemma_next_member(ma, mb);
    let (ma, mb) = (ma.drop_first(), mb.drop_first());
    json::lemma_first_member(ma, mb);
    json::lemma_quoted_ends(
        a.version,
        b.version,
        json::after_first_value(ma),
        json::after_first_value(mb),
    );
    json::lemma_next_member(ma, mb);
    let (ma, mb) = (ma.drop_first(), mb.drop_first());
    json::lemma_first_member(ma, mb);
    json::lemma_quoted_ends(
        crypto::hex_text(da),
        crypto::hex_text(db),
        json::after_first_value(ma),
        json::after_first_value(mb),
    );
    crypto::law_hex_round_trip(da);
    crypto::law_hex_round_trip(db);
    text::lemma_arranged(a.hooks);
    text::lemma_arranged(b.hooks);
    text::lemma_arranged(a.capabilities);
    text::lemma_arranged(b.capabilities);
}

/// Whatever is changed about a manifest or its code after signing, the signature no
/// longer fits: were both accepted under one key with one signature, that
/// signature would be valid for two different messages. That there is no such
/// signature is what ed25519 is for.
pub proof fn law_a_changed_manifest_needs_another_signature(
    a: ManifestModel,
    b: ManifestModel,
    wasm_a: Seq<u8>,
    wasm_b: Seq<u8>,
    key: Seq<u8>,
)
    requires
        a.signature == b.signature,
        a.name != b.name || a.version != b.version || a.kind != b.kind || a.context != b.context
            || a.hooks.to_multiset() != b.hooks.to_multiset() || a.capabilities.to_multiset()
            != b.capabilities.to_multiset() || crypto::sha256_of(wasm_a) != crypto::sha256_of(
            wasm_b,
        ),
    ensures
        payload(a, wasm_a) != payload(b, wasm_b),
        verify_problem(a, wasm_a, key) is None && verify_problem(b, wasm_b, key) is None ==> {
            let signature = crypto::hex_bytes(a.signature->0);
            &&& crypto::ed25519_verifies(key, payload(a, wasm_a), signature)
            &&& crypto::ed25519_verifies(key, payload(b, wasm_b), signature)
        },
{
    if payload(a, wasm_a) == payload(b, wasm_b) {
        law_signature_covers_everything(a, b, wasm_a, wasm_b);
    }
}

/// A manifest is accepted exactly where its signature is the hex form of 64 bytes
/// that ed25519 accepts for what has to be signed.
pub proof fn law_acceptance_is_the_signature(m: ManifestModel, wasm: Seq<u8>, key: Seq<u8>)
    ensures
        verify_problem(m, wasm, key) is None <==> m.signature is Some && crypto::is_hex(
            m.signature->0,
        ) && crypto::hex_bytes(m.signature->0).len() == 64 && crypto::ed25519_verifies(
            key,
            payload(m, wasm),
            crypto::hex_bytes(m.signature->0),
        ),
{
}

/// All that a manifest declares is signed: the document that the signature covers holds
/// the digest of the code and every declaration, and nothing else.
pub proof fn law_every_declaration_is_signed(m: ManifestModel, digest: Seq<u8>)
    ensures
        ({
            let signed = payload_members(m, digest);
            &&& signed.len() == 7
            &&& payload_text(m, digest) == json::object_text(signed)
            &&& record::lookup(signed, "name"@) == Some(json::quoted(m.name))
            &&& record::lookup(signed, "version"@) == Some(json::quoted(m.version))
            &&& record::lookup(signed, "kind"@) == Some(
                json::quoted(
                    match m.kind {
                        PluginKind::Tool => "tool"@,
                        PluginKind::Strategy => "strategy"@,
                        PluginKind::Hook => "hook"@,
                    },
                ),
            )
            &&& record::lookup(signed, "context"@) == Some(if m.context {
                "true"@
            } else {
                "false"@
            })
            &&& record::lookup(signed, "hooks"@) == Some(
                json::array_text(json::quoted_all(text::arranged(m.hooks))),
            )
            &&& record::lookup(signed, "capabilities"@) == Some(
                json::array_text(json::quoted_all(text::arranged(m.capabilities))),
            )
            &&& record::lookup(signed, "wasm_sha256"@) == Some(
                json::quoted(crypto::hex_text(digest)),
            )
        }),
{
    let signed = payload_members(m, digest);
    reveal_strlit("capabilities");
    reveal_strlit("context");
    reveal_strlit("hooks");
    reveal_strlit("kind");
    reveal_strlit("name");
    reveal_strlit("version");
    reveal_strlit("wasm_sha256");
    assert("capabilities"@.len() == 12 && "context"@.len() == 7 && "hooks"@.len() == 5
        && "kind"@.len() == 4 && "name"@.len() == 4 && "version"@.len() == 7 && "wasm_sha256"@.len()
        == 11);
    assert("kind"@[0] == 'k' && "name"@[0] == 'n' && "context"@[0] == 'c' && "version"@[0] == 'v');
    assert(signed[0].0 == "capabilities"@ && signed[1].0 == "context"@ && signed[2].0 == "hooks"@
        && signed[3].0 == "kind"@ && signed[4].0 == "name"@ && signed[5].0 == "version"@
        && signed[6].0 == "wasm_sha256"@);
    assert(record::distinct_keys(signed));
    record::lemma_lookup_at(signed, 0);
    record::lemma_lookup_at(signed, 1);
    record::lemma_lookup_at(signed, 2);
    record::lemma_lookup_at(signed, 3);
    record::lemma_lookup_at(signed, 4);
    record::lemma_lookup_at(signed, 5);
    record::lemma_lookup_at(signed, 6);
}

/// A manifest is what its fields say. One that declares no permission has none, and one
/// that declares no hooks attaches nowhere. Without a name, a version or a kind it is no
/// manifest.
pub proof fn law_a_manifest_is_what_its_fields_say(
    document: Text,
    members: Seq<(Text, Text)>,
    m: ManifestModel,
)
    requires
        json::json_members(document) == Some(members),
        record::no_repeats(document, members),
        record::repeats_nowhere(document),
        record::only_names(
            members,
            seq!["name"@, "version"@, "kind"@, "hooks"@, "permissions"@, "signature"@],
        ),
        record::lookup(members, "kind"@) == Some(
            match m.kind {
                PluginKind::Tool => "\"tool\""@,
                PluginKind::Strategy => "\"strategy\""@,
                PluginKind::Hook => "\"hook\""@,
            },
        ),
        record::lookup(members, "hooks"@) is None && m.hooks.len() == 0 || record::lookup(
            members,
            "hooks"@,
        ) is Some && strings_of(record::lookup(members, "hooks"@)->0) == Some(m.hooks),
        record::lookup(members, "permissions"@) is None && !m.context && m.capabilities.len() == 0
            || record::lookup(members, "permissions"@) is Some && permissions_of(
            record::lookup(members, "permissions"@),
        ) == Some((m.context, m.capabilities)),
        abi::says(members, "signature"@, m.signature),
    ensures
        abi::says(members, "name"@, Some(m.name)) && abi::says(members, "version"@, Some(m.version))
            ==> manifest_of(document) == Some(m),
        abi::says(members, "name"@, None) || abi::says(members, "version"@, None) ==> manifest_of(
            document,
        ) is None,
{
    abi::lemma_says(members, "signature"@, m.signature);
    if abi::says(members, "name"@, None) {
        abi::lemma_says(members, "name"@, None);
    }
    if abi::says(members, "name"@, Some(m.name)) {
        abi::lemma_says(members, "name"@, Some(m.name));
    }
    if abi::says(members, "version"@, None) {
        abi::lemma_says(members, "version"@, None);
    }
    if abi::says(members, "version"@, Some(m.version)) {
        abi::lemma_says(members, "version"@, Some(m.version));
    }
    assert(manifest_names() =~= seq![
        "name"@,
        "version"@,
        "kind"@,
        "hooks"@,
        "permissions"@,
        "signature"@,
    ]);
    let f = record::record(document, manifest_names())->0;
    assert(f[0] == record::lookup(members, "name"@));
    assert(f[1] == record::lookup(members, "version"@));
    assert(f[2] == record::lookup(members, "kind"@));
    assert(f[3] == record::lookup(members, "hooks"@));
    assert(f[4] == record::lookup(members, "permissions"@));
    assert(f[5] == record::lookup(members, "signature"@));
    assert(m.hooks.len() == 0 ==> m.hooks =~= Seq::<Text>::empty());
    assert(m.capabilities.len() == 0 ==> m.capabilities =~= Seq::<Text>::empty());
    lemma_kind_words();
    assert(kind_of(f[2]->0) == Some(m.kind));
    assert(list_field(f[3]) == Some(m.hooks));
    assert(permissions_of(f[4]) == Some((m.context, m.capabilities)));
    assert(record::string_field(f[5]) == Some(m.signature));
}

proof fn lemma_kind_words()
    ensures
        kind_of("\"tool\""@) == Some(PluginKind::Tool),
        kind_of("\"strategy\""@) == Some(PluginKind::Strategy),
        kind_of("\"hook\""@) == Some(PluginKind::Hook),
{
    reveal_strlit("\"tool\"");
    reveal_strlit("\"strategy\"");
    reveal_strlit("\"hook\"");
    reveal_strlit("{\"tool\":null}");
    reveal_strlit("{\"strategy\":null}");
    reveal_strlit("{\"hook\":null}");
    assert("\"tool\""@[1] == 't' && "\"strategy\""@[1] == 's' && "\"hook\""@[1] == 'h');
    assert("\"tool\""@[0] == '"' && "\"strategy\""@[0] == '"' && "\"hook\""@[0] == '"');
    assert("{\"tool\":null}"@[0] == '{' && "{\"strategy\":null}"@[0] == '{'
        && "{\"hook\":null}"@[0] == '{');
}

/// Permissions are what their fields say, and what is not declared is not permitted.
pub proof fn law_permissions_are_what_they_say(document: Text, members: Seq<(Text, Text)>)
    requires
        json::json_members(document) == Some(members),
        record::no_repeats(document, members),
        record::only_names(members, seq!["context"@, "capabilities"@]),
    ensures
        permissions_of(None) == Some((false, Seq::<Text>::empty())),
        permissions_of(Some(document)) matches Some((context, capabilities)) ==> {
            &&& context <==> record::lookup(members, "context"@) == Some("true"@)
            &&& record::lookup(members, "capabilities"@) is None ==> capabilities.len() == 0
            &&& record::lookup(members, "capabilities"@) matches Some(list) ==> strings_of(list)
                == Some(capabilities)
        },
        (record::lookup(members, "context"@) is None || record::lookup(members, "context"@)
            == Some("true"@) || record::lookup(members, "context"@) == Some("false"@)) && (
        record::lookup(members, "capabilities"@) is None || strings_of(
            record::lookup(members, "capabilities"@)->0,
        ) is Some) ==> permissions_of(Some(document)) is Some,
{
    assert(permission_names() =~= seq!["context"@, "capabilities"@]);
    let f = record::record(document, permission_names())->0;
    assert(f[0] == record::lookup(members, "context"@));
    assert(f[1] == record::lookup(members, "capabilities"@));
}

/// A list of strings is taken whole and in its order.
pub proof fn law_lists_are_taken_whole(document: Text, items: Seq<Text>)
    requires
        json::json_elements(document) == Some(items),
    ensures
        strings_of(document) matches Some(list) ==> list.len() == items.len() && forall|i: int|
            0 <= i < items.len() ==> json::json_string(#[trigger] items[i]) == Some(list[i]),
        strings_of(document) is None <==> exists|i: int|
            0 <= i < items.len() && json::json_string(#[trigger] items[i]) is None,
{
}

/// A key is read from its hexadecimal form, whatever white space is around it.
pub proof fn law_keys_are_read_from_their_hex_form(t: Text, a: int, b: int, bytes: Seq<u8>)
    requires
        text::trims(t, a, b),
        t.subrange(a, b) == crypto::hex_text(bytes),
    ensures
        bytes.len() == 32 && crypto::ed25519_point(bytes) ==> pubkey_of(t) == Ok::<
            Seq<u8>,
            Text,
        >(bytes),
        bytes.len() != 32 ==> pubkey_of(t) == Err::<Seq<u8>, Text>(
            "public key"@ + " is not 32 bytes"@,
        ),
{
    text::law_trimming_is_exact(t, a, b);
    crypto::law_hex_round_trip(bytes);
}

/// A signature that is missing, or of the wrong length, is told of as such.
pub proof fn law_bad_signatures_are_told_of(m: ManifestModel, wasm: Seq<u8>, key: Seq<u8>)
    ensures
        m.signature is None ==> verify_problem(m, wasm, key) == Some("manifest has no signature"@),
        m.signature matches Some(digits) ==> (crypto::is_hex(digits) && digits.len() != 128
            ==> verify_problem(m, wasm, key) == Some("signature is not 64 bytes"@)),
{
}

} // verus!
