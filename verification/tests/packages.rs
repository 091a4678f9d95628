//! Manifests, signatures and which version of a plugin is chosen.

use ed25519_dalek::{Signer, SigningKey};
use edge_agent_core::plugin::manifest;
use edge_agent_core::plugin::manifest::{
    parse_pubkey, Manifest, Permissions, PluginKind, PublicKey,
};
use edge_agent_core::plugin::registry;
use edge_agent_core::plugin::registry::{PluginDir, Registry, ScanOptions, VersionDir};
use edge_agent_core::plugin::runtime::PluginRuntime;

const MINIMAL_WASM: &[u8] = &[0x00, 0x61, 0x73, 0x6d, 0x01, 0x00, 0x00, 0x00];

fn public(key: &SigningKey) -> PublicKey {
    PublicKey::from_bytes(&key.verifying_key().to_bytes()).unwrap()
}

#[test]
fn sign_verify_roundtrip_and_tamper_detection() {
    let key = SigningKey::generate(&mut rand_core::OsRng);
    let wasm = b"\0asm-fake-bytes";
    let mut m = Manifest {
        name: "demo".into(),
        version: "1.0.0".into(),
        kind: PluginKind::Tool,
        hooks: vec![],
        permissions: Permissions {
            context: false,
            capabilities: vec!["device:relay0".into()],
        },
        signature: None,
    };
    let sig = key.sign(&m.signing_payload(wasm));
    m.signature = Some(hex::encode(sig.to_bytes()));

    let pk = public(&key);
    assert!(m.verify(wasm, &pk).is_ok());
    // Escalating permissions after signing must fail verification.
    m.permissions.capabilities.push("net:0.0.0.0".into());
    assert!(m.verify(wasm, &pk).is_err());
}

#[test]
fn wasm_tamper_fails_verification() {
    let key = SigningKey::generate(&mut rand_core::OsRng);
    let wasm_original = b"\0asm-original";
    let wasm_tampered = b"\0asm-tampered";

    let mut m = Manifest {
        name: "tool".into(),
        version: "0.1.0".into(),
        kind: PluginKind::Tool,
        hooks: vec![],
        permissions: Permissions::default(),
        signature: None,
    };
    let sig = key.sign(&m.signing_payload(wasm_original));
    m.signature = Some(hex::encode(sig.to_bytes()));

    let pk = public(&key);
    assert!(m.verify(wasm_original, &pk).is_ok());
    assert!(m.verify(wasm_tampered, &pk).is_err());
}

#[test]
fn parse_pubkey_valid_and_invalid() {
    let key = SigningKey::generate(&mut rand_core::OsRng);
    let pk = key.verifying_key();
    let hex_pk = hex::encode(pk.to_bytes());

    let parsed = parse_pubkey(&hex_pk).unwrap();
    assert_eq!(parsed.to_bytes(), pk.to_bytes().to_vec());

    // Invalid hex
    assert!(parse_pubkey("invalid_hex").is_err());
    // Wrong length
    assert!(parse_pubkey("1234").is_err());
}

#[test]
fn canonical_signing_payload_sorting() {
    let wasm = b"\0asm";
    let m1 = Manifest {
        name: "test".into(),
        version: "1.0.0".into(),
        kind: PluginKind::Hook,
        hooks: vec!["post_task".into(), "pre_task".into()],
        permissions: Permissions {
            context: true,
            capabilities: vec!["b_cap".into(), "a_cap".into()],
        },
        signature: None,
    };
    let m2 = Manifest {
        name: "test".into(),
        version: "1.0.0".into(),
        kind: PluginKind::Hook,
        hooks: vec!["pre_task".into(), "post_task".into()],
        permissions: Permissions {
            context: true,
            capabilities: vec!["a_cap".into(), "b_cap".into()],
        },
        signature: None,
    };
    // Payload must be identical regardless of original vec order
    assert_eq!(m1.signing_payload(wasm), m2.signing_payload(wasm));
}

#[test]
fn signing_payload_is_the_canonical_document() {
    let m = Manifest {
        name: "n".into(),
        version: "1.0.0".into(),
        kind: PluginKind::Strategy,
        hooks: vec!["b".into(), "a".into()],
        permissions: Permissions {
            context: true,
            capabilities: vec!["z".into(), "y".into()],
        },
        signature: Some("ignored".into()),
    };
    // sha256("abc")
    let expected = "{\"capabilities\":[\"y\",\"z\"],\"context\":true,\"hooks\":[\"a\",\"b\"],\"kind\":\"strategy\",\"name\":\"n\",\"version\":\"1.0.0\",\"wasm_sha256\":\"ba7816bf8f01cfea414140de5dae2223b00361a396177a9cb410ff61f20015ad\"}";
    assert_eq!(m.signing_payload(b"abc"), expected.as_bytes());
}

#[test]
fn every_way_a_signature_is_refused() {
    let key = SigningKey::generate(&mut rand_core::OsRng);
    let pk = public(&key);
    let mut m = Manifest::from_json("{\"name\":\"n\",\"version\":\"1.0.0\",\"kind\":\"tool\"}").unwrap();
    let why = |m: &Manifest| m.verify(b"w", &pk).unwrap_err();
    assert_eq!(why(&m), "manifest has no signature");
    m.signature = Some("xyz".into());
    assert_eq!(why(&m), "Odd number of digits");
    m.signature = Some("wxyz".into());
    assert_eq!(why(&m), "Invalid character 'w' at position 0");
    m.signature = Some("00ff".into());
    assert_eq!(why(&m), "signature is not 64 bytes");
    m.signature = Some("00".repeat(64));
    assert_eq!(
        why(&m),
        "signature verification failed: signature error: Verification equation was not satisfied"
    );
}

#[test]
fn key_pairs_sign_and_verify() {
    let secret = [7u8; 32];
    let (secret_text, public_text) = manifest::key_texts(&secret);
    assert_eq!(secret_text, "07".repeat(32));
    assert_eq!(
        public_text,
        hex::encode(SigningKey::from_bytes(&secret).verifying_key().to_bytes())
    );
    let pk = parse_pubkey(&format!(" {}\n", public_text)).unwrap();
    let mut m = Manifest::from_json("{\"name\":\"n\",\"version\":\"1.0.0\",\"kind\":\"hook\"}").unwrap();
    assert_eq!(m.sign(b"code", "nothex"), Err("Invalid character 'n' at position 0".to_string()));
    assert_eq!(m.sign(b"code", "ab"), Err("secret key is not 32 bytes".to_string()));
    assert!(m.signature.is_none());
    assert_eq!(m.sign(b"code", &format!("{}\n", secret_text)), Ok(()));
    assert_eq!(m.verify(b"code", &pk), Ok(()));
    let expected = SigningKey::from_bytes(&secret).sign(&m.signing_payload(b"code"));
    assert_eq!(m.signature, Some(hex::encode(expected.to_bytes())));
    m.version = "1.0.1".into();
    assert!(m.verify(b"code", &pk).unwrap_err().starts_with("signature verification failed: "));
}

#[test]
fn bytes_that_are_no_public_key() {
    // The second smallest y-coordinate is on no point of the curve.
    let mut bytes = [0u8; 32];
    bytes[0] = 2;
    let text = hex::encode(bytes);
    assert_eq!(
        parse_pubkey(&text).unwrap_err(),
        "signature error: Cannot decompress Edwards point"
    );
    assert!(PublicKey::from_bytes(&bytes).is_none());
    assert!(PublicKey::from_bytes(&[0u8; 31]).is_none());
}

#[test]
fn manifests_are_read_strictly() {
    let full = "{\"name\":\"n\",\"version\":\"1.2.3\",\"kind\":\"hook\",\"hooks\":[\"pre_task\"],\"permissions\":{\"context\":true,\"capabilities\":[\"c\"]},\"signature\":null}";
    let m = Manifest::from_json(full).unwrap();
    assert_eq!(m.name, "n");
    assert_eq!(m.version, "1.2.3");
    assert_eq!(m.kind, PluginKind::Hook);
    assert_eq!(m.hooks, vec!["pre_task"]);
    assert!(m.permissions.context);
    assert_eq!(m.permissions.capabilities, vec!["c"]);
    assert!(m.signature.is_none());

    let short = Manifest::from_json("{\"name\":\"n\",\"version\":\"1\",\"kind\":{\"tool\":null}}").unwrap();
    assert_eq!(short.kind, PluginKind::Tool);
    assert!(short.hooks.is_empty());
    assert!(!short.permissions.context);
    assert!(short.permissions.capabilities.is_empty());

    for bad in [
        "{\"version\":\"1\",\"kind\":\"tool\"}",
        "{\"name\":\"n\",\"version\":\"1\"}",
        "{\"name\":\"n\",\"version\":\"1\",\"kind\":\"wizard\"}",
        "{\"name\":\"n\",\"version\":\"1\",\"kind\":\"tool\",\"extra\":1}",
        "{\"name\":\"n\",\"version\":\"1\",\"kind\":\"tool\",\"hooks\":null}",
        "{\"name\":\"n\",\"version\":\"1\",\"kind\":\"tool\",\"hooks\":[1]}",
        "{\"name\":\"n\",\"version\":\"1\",\"kind\":\"tool\",\"permissions\":{\"root\":true}}",
        "{\"name\":\"n\",\"version\":\"1\",\"kind\":\"tool\",\"permissions\":{\"context\":false,\"context\":true}}",
        "{\"name\":\"n\",\"name\":\"m\",\"version\":\"1\",\"kind\":\"tool\"}",
    ] {
        assert!(Manifest::from_json(bad).is_none(), "{}", bad);
    }
}

fn version(name: &str, plugin: &str, kind: &str, disabled: bool) -> VersionDir {
    VersionDir {
        name: name.to_string(),
        path: format!("plugins/{}/{}", plugin, name),
        is_dir: true,
        disabled,
        manifest: Ok(format!(
            "{{\"name\":\"{}\",\"version\":\"{}\",\"kind\":\"{}\"}}",
            plugin, name, kind
        )),
        wasm: Ok(MINIMAL_WASM.to_vec()),
    }
}

#[test]
fn scan_loads_highest_version_and_skips_disabled() {
    let rt = PluginRuntime::new().unwrap();
    let opts = ScanOptions {
        pubkey: None,
        allow_unsigned: true,
    };
    let dirs = vec![PluginDir {
        name: "my-tool".to_string(),
        versions: Ok(vec![
            version("1.0.0", "my-tool", "tool", false),
            version("2.0.0", "my-tool", "tool", false),
            version("3.0.0", "my-tool", "tool", true),
        ]),
    }];
    let mut reg = Registry::scan(&rt, &dirs, &opts);
    let loaded = reg.get("my-tool").expect("my-tool should be loaded");
    // v3 is disabled, so v2 must be selected
    assert_eq!(loaded.manifest.version, "2.0.0");
    assert_eq!(reg.tool_names(), vec!["my-tool"]);

    // Report failures on v2 to trigger rollback to v1
    assert!(!reg.report_result("my-tool", false, 2));
    assert!(reg.report_result("my-tool", false, 2)); // 2nd failure trips rollback

    // Now v2 is marked .disabled, active version should be 1.0.0
    let again = vec![
        version("1.0.0", "my-tool", "tool", false),
        version("2.0.0", "my-tool", "tool", true),
        version("3.0.0", "my-tool", "tool", true),
    ];
    let found = registry::load_best_version(&rt, "my-tool", &again, &opts);
    reg.reload("my-tool", found.plugin);
    let rolled = reg.get("my-tool").expect("my-tool should have rolled back to 1.0.0");
    assert_eq!(rolled.manifest.version, "1.0.0");
    assert_eq!(rolled.consecutive_failures, 0);
}

#[test]
fn plugins_are_listed_by_the_names_in_their_manifests() {
    let rt = PluginRuntime::new().unwrap();
    let opts = ScanOptions {
        pubkey: None,
        allow_unsigned: true,
    };
    let mut reg = Registry::default();
    for (key, name, kind) in [
        ("a/pump", "pump", "tool"),
        ("lamp", "lamp", "tool"),
        ("a/z-route", "z-route", "strategy"),
        ("b-route", "b-route", "strategy"),
    ] {
        let list = vec![version("1.0.0", name, kind, false)];
        let found = registry::load_best_version(&rt, name, &list, &opts);
        reg.reload(key, found.plugin);
    }
    assert_eq!(reg.names(), vec!["a/pump", "a/z-route", "b-route", "lamp"]);
    assert_eq!(reg.tool_names(), vec!["lamp", "pump"]);
    assert_eq!(reg.strategy_names(), vec!["b-route", "z-route"]);
    assert_eq!(reg.strategy().unwrap().manifest.name, "b-route");
    assert!(reg.tool("a/pump").is_some());
    assert!(reg.tool("pump").is_none());
}

#[test]
fn versions_are_tried_from_the_highest_down() {
    let list = vec![
        version("1.9.0", "p", "tool", false),
        version("1.10.0", "p", "tool", false),
        version("2.0.0-rc.1", "p", "tool", false),
        version("latest", "p", "tool", false),
        version("2.0.0", "p", "tool", true),
    ];
    assert_eq!(registry::rank(&list), vec![2, 1, 0]);

    let rt = PluginRuntime::new().unwrap();
    let opts = ScanOptions {
        pubkey: None,
        allow_unsigned: true,
    };
    let mut list = list;
    list[2].wasm = Ok(vec![1, 2, 3]);
    list[1].wasm = Err("gone".to_string());
    let found = registry::load_best_version(&rt, "p", &list, &opts);
    let warning = "[registry] WARNING: loading UNSIGNED plugin 'p' (dev mode)";
    let lines = registry::note_trial("p", &opts, &found);
    assert_eq!(lines.len(), 4);
    assert_eq!(lines[0], warning);
    assert!(lines[1].starts_with("[registry] p/2.0.0-rc.1 skipped: wasm compilation failed: "));
    assert_eq!(lines[2], "[registry] p/1.10.0 skipped: gone");
    assert_eq!(lines[3], warning);
    assert_eq!(found.plugin.unwrap().dir, "plugins/p/1.9.0");
    assert_eq!(found.skipped.len(), 2);
    assert_eq!(found.skipped[0].version, "2.0.0-rc.1");
    assert!(found.skipped[0].why.starts_with("wasm compilation failed: "));
    assert!(found.skipped[0].unsigned);
    assert_eq!(found.skipped[1].version, "1.10.0");
    assert_eq!(found.skipped[1].why, "gone");
    assert!(!found.skipped[1].unsigned);
}

#[test]
fn layout_and_trust_are_enforced() {
    let dev = ScanOptions {
        pubkey: None,
        allow_unsigned: true,
    };
    let v = version("1.0.0", "p", "tool", false);
    assert!(registry::examine(&v, "p", &dev).is_ok());
    assert_eq!(
        registry::examine(&v, "q", &dev).unwrap_err(),
        "manifest name 'p' != directory 'q'"
    );
    let mut wrong = version("1.0.0", "p", "tool", false);
    wrong.name = "1.0.1".to_string();
    assert_eq!(
        registry::examine(&wrong, "p", &dev).unwrap_err(),
        "manifest version '1.0.0' != directory '1.0.1'"
    );
    let odd = version("one", "p", "tool", false);
    assert!(registry::rank(&[odd]).is_empty());
    let mut odd = version("1.0.0", "p", "tool", false);
    odd.manifest = Ok("{\"name\":\"p\",\"version\":\"one\",\"kind\":\"tool\"}".to_string());
    assert_eq!(
        registry::examine(&odd, "p", &dev).unwrap_err(),
        "unexpected character 'o' while parsing major version number"
    );
    odd.manifest = Ok("{}".to_string());
    assert_eq!(
        registry::examine(&odd, "p", &dev).unwrap_err(),
        "the document is no manifest"
    );
    odd.manifest = Err("unreadable".to_string());
    assert_eq!(registry::examine(&odd, "p", &dev).unwrap_err(), "unreadable");

    let nobody = ScanOptions {
        pubkey: None,
        allow_unsigned: false,
    };
    assert_eq!(
        registry::examine(&v, "p", &nobody).unwrap_err(),
        "no trusted_pubkey configured and dev_allow_unsigned is off"
    );
    let secret = [9u8; 32];
    let (secret_text, public_text) = manifest::key_texts(&secret);
    let pk = parse_pubkey(&public_text).unwrap();
    let strict = ScanOptions {
        pubkey: Some(&pk),
        allow_unsigned: true,
    };
    assert_eq!(
        registry::examine(&v, "p", &strict).unwrap_err(),
        "manifest has no signature"
    );
    let mut m = registry::examine(&v, "p", &dev).unwrap();
    m.sign(MINIMAL_WASM, &secret_text).unwrap();
    let mut signed = version("1.0.0", "p", "tool", false);
    signed.manifest = Ok(format!(
        "{{\"name\":\"p\",\"version\":\"1.0.0\",\"kind\":\"tool\",\"signature\":\"{}\"}}",
        m.signature.unwrap()
    ));
    assert!(registry::examine(&signed, "p", &strict).is_ok());
    signed.wasm = Ok(vec![0]);
    assert_eq!(
        registry::examine(&signed, "p", &strict).unwrap_err(),
        "signature verification failed: signature error: Verification equation was not satisfied"
    );
}

#[test]
fn registry_queries() {
    let rt = PluginRuntime::new().unwrap();
    let opts = ScanOptions {
        pubkey: None,
        allow_unsigned: true,
    };
    let mut hook = version("1.0.0", "watch", "hook", false);
    hook.manifest = Ok(
        "{\"name\":\"watch\",\"version\":\"1.0.0\",\"kind\":\"hook\",\"hooks\":[\"post_task\"]}"
            .to_string(),
    );
    let dirs = vec![
        PluginDir { name: "watch".to_string(), versions: Ok(vec![hook]) },
        PluginDir {
            name: "route-b".to_string(),
            versions: Ok(vec![version("1.0.0", "route-b", "strategy", false)]),
        },
        PluginDir {
            name: "route-a".to_string(),
            versions: Ok(vec![version("1.0.0", "route-a", "strategy", false)]),
        },
        PluginDir { name: "lost".to_string(), versions: Err("unreadable".to_string()) },
        PluginDir { name: "bare".to_string(), versions: Ok(vec![]) },
        PluginDir {
            name: "lamp".to_string(),
            versions: Ok(vec![version("0.1.0", "lamp", "tool", false)]),
        },
    ];
    let mut reg = Registry::scan(&rt, &dirs, &opts);
    assert_eq!(reg.names(), vec!["lamp", "route-a", "route-b", "watch"]);
    assert_eq!(reg.tool_names(), vec!["lamp"]);
    assert_eq!(reg.strategy().unwrap().manifest.name, "route-a");
    assert_eq!(reg.strategy_names(), vec!["route-a", "route-b"]);
    let hooks = reg.hooks_for("post_task");
    assert_eq!(hooks.len(), 1);
    assert_eq!(hooks[0].manifest.name, "watch");
    assert_eq!(reg.hook_names("post_task"), vec!["watch"]);
    assert!(reg.hooks_for("pre_task").is_empty());
    assert!(reg.tool("lamp").is_some());
    assert!(reg.tool("route-a").is_none());
    assert!(!reg.report_result("nobody", false, 1));
    assert!(!reg.report_result("lamp", false, 3));
    assert!(!reg.report_result("lamp", true, 3));
    assert_eq!(reg.get("lamp").unwrap().consecutive_failures, 0);
    reg.reload("lamp", None);
    assert!(reg.get("lamp").is_none());
}
