use mneme::agent::{non_empty, slugify, KeyChange, MnemeCore, ProviderStep, SyncAction, SyncStage};
use mneme::domain::{AppConfig, ConfigPatch};
use mneme::hash::hash_bytes;
use mneme::ingest::{check_addresses, private_ip, IpAddress};
use mneme::vault::Vault;

fn core_with(config: AppConfig) -> MnemeCore {
    MnemeCore::new(Vault::new("/tmp/vault".to_string()), config)
}

fn config(provider: Option<&str>, model: Option<&str>, base_url: Option<&str>, remote: Option<&str>) -> AppConfig {
    AppConfig {
        provider: provider.map(|s| s.to_string()),
        model: model.map(|s| s.to_string()),
        base_url: base_url.map(|s| s.to_string()),
        retriever: None,
        sync_remote: remote.map(|s| s.to_string()),
    }
}

#[test]
fn slug_keeps_unicode() {
    assert_eq!(slugify("人工 智能"), "人工-智能");
}

#[test]
fn slug_lowercases_and_joins_runs() {
    assert_eq!(slugify("  Elon Musk!! "), "elon-musk");
    assert_eq!(slugify("Tesla, Inc."), "tesla-inc");
}

#[test]
fn slug_of_symbols_is_hashed() {
    assert_eq!(slugify("!!!"), "entity-e84c538e7f");
}

#[test]
fn empty_config_values_clear_overrides() {
    assert_eq!(non_empty("  ".into()), None);
    assert_eq!(non_empty(" model ".into()), Some("model".into()));
}

#[test]
fn blocks_private_networks() {
    assert!(private_ip(IpAddress::V4(127, 0, 0, 1)));
    assert!(private_ip(IpAddress::V4(192, 168, 1, 1)));
    assert!(private_ip(IpAddress::V6(0, 0, 0, 0, 0, 0xffff, 0x7f00, 0x0001)));
    assert!(!private_ip(IpAddress::V6(0x2606, 0x4700, 0x4700, 0, 0, 0, 0, 0x1111)));
}

#[test]
fn public_and_special_ipv4_ranges() {
    assert!(!private_ip(IpAddress::V4(8, 8, 8, 8)));
    assert!(private_ip(IpAddress::V4(100, 64, 0, 1)));
    assert!(!private_ip(IpAddress::V4(100, 128, 0, 1)));
    assert!(private_ip(IpAddress::V4(198, 19, 0, 1)));
    assert!(private_ip(IpAddress::V4(203, 0, 113, 9)));
    assert!(private_ip(IpAddress::V4(224, 0, 0, 1)));
    assert!(private_ip(IpAddress::V6(0xfe80, 0, 0, 0, 0, 0, 0, 1)));
    assert!(private_ip(IpAddress::V6(0, 0, 0, 0, 0, 0, 0, 1)));
}

#[test]
fn address_checks() {
    assert_eq!(check_addresses(&vec![]).unwrap_err(), "URL host did not resolve");
    assert_eq!(
        check_addresses(&vec![IpAddress::V4(1, 1, 1, 1), IpAddress::V4(10, 0, 0, 1)]).unwrap_err(),
        "private or local network URLs are not allowed"
    );
    assert_eq!(check_addresses(&vec![IpAddress::V4(1, 1, 1, 1)]), Ok(0));
}

#[test]
fn sha256_hex_of_known_inputs() {
    assert_eq!(hash_bytes(b"abc"), "ba7816bf8f01cfea414140de5dae2223b00361a396177a9cb410ff61f20015ad");
    assert_eq!(hash_bytes(b""), "e3b0c44298fc1c149afbf4c8996fb92427ae41e4649b934ca495991b7852b855");
}

#[test]
fn config_view_defaults_to_mock() {
    let core = core_with(AppConfig::default());
    let v = core.config_view(false);
    assert_eq!(v.provider, "mock");
    assert_eq!(v.retriever, "builtin");
    assert_eq!(v.providers.len(), 7);
    assert_eq!(v.vault, "/tmp/vault");
    assert!(!v.has_key);
    assert_eq!(core.active_provider(), "mock");
    let qwen = core_with(config(Some("qwen"), None, None, None));
    assert_eq!(qwen.active_provider(), "qwen");
    assert_eq!(qwen.config_view(true).provider, "qwen");
    assert!(qwen.config_view(true).has_key);
}

#[test]
fn set_config_trims_and_clears() {
    let mut core = core_with(config(Some("openai"), Some("gpt-4o"), None, None));
    let patch = ConfigPatch {
        provider: None,
        api_key: Some(String::new()),
        model: Some("  ".into()),
        base_url: Some(" http://x/v1 ".into()),
        retriever: None,
        sync_remote: Some("git@host:repo".into()),
    };
    assert_eq!(core.key_change(&patch), Some(KeyChange::Delete { provider: "openai".into() }));
    core.set_config(patch);
    assert_eq!(core.config.model, None);
    assert_eq!(core.config.base_url, Some("http://x/v1".into()));
    assert_eq!(core.config.sync_remote, Some("git@host:repo".into()));
    assert_eq!(core.config.retriever, Some("builtin".into()));
}

#[test]
fn provider_choices() {
    assert_eq!(core_with(AppConfig::default()).provider(), Ok(ProviderStep::Mock));
    assert_eq!(
        core_with(config(Some("nope"), None, None, None)).provider().unwrap_err(),
        "unknown provider"
    );
    assert_eq!(
        core_with(config(Some("custom"), None, None, None)).provider().unwrap_err(),
        "provider base URL and model are required"
    );
    match core_with(config(Some("deepseek"), Some(" "), None, None)).provider().unwrap() {
        ProviderStep::NeedKey(plan) => {
            assert_eq!(plan.base_url, "https://api.deepseek.com/v1");
            assert_eq!(plan.model, "deepseek-chat");
            assert_eq!(plan.clone().with_key(None).unwrap_err(), "deepseek API key is not configured");
            let s = plan.with_key(Some("k".into())).unwrap();
            assert_eq!(s.key, Some("k".into()));
        }
        ProviderStep::Mock => panic!("expected a preset"),
    }
}

#[test]
fn sync_without_remote_finishes() {
    let (m, a) = core_with(AppConfig::default()).sync("2026-01-01".into());
    assert!(m.is_none());
    match a {
        SyncAction::Finish(r) => {
            assert!(!r.ok);
            assert_eq!(r.message, "未配置远端");
        }
        SyncAction::Git(_) => panic!("expected the end"),
    }
}

#[test]
fn sync_runs_git_steps() {
    let core = core_with(config(None, None, None, Some("origin-url")));
    let (m, a) = core.sync("2026-01-01".into());
    let mut m = m.unwrap();
    assert_eq!(a, SyncAction::Git(vec!["add".into(), "-A".into()]));
    assert_eq!(m.step(Ok(String::new())), SyncAction::Git(vec!["status".into(), "--porcelain".into()]));
    assert_eq!(
        m.step(Ok("M a.md".into())),
        SyncAction::Git(vec!["commit".into(), "-m".into(), "sync 2026-01-01".into(), "--quiet".into()])
    );
    assert_eq!(m.step(Ok(String::new())), SyncAction::Git(vec!["remote".into(), "remove".into(), "origin".into()]));
    assert_eq!(
        m.step(Err("no such remote".into())),
        SyncAction::Git(vec!["remote".into(), "add".into(), "origin".into(), "origin-url".into()])
    );
    assert_eq!(m.stage, SyncStage::AddOrigin);
    assert_eq!(m.step(Ok(String::new())), SyncAction::Git(vec!["push".into(), "-u".into(), "origin".into(), "HEAD".into(), "--quiet".into()]));
    match m.step(Ok(String::new())) {
        SyncAction::Finish(r) => {
            assert!(r.ok);
            assert_eq!(r.message, "已推送备份");
        }
        SyncAction::Git(_) => panic!("expected the end"),
    }
}

#[test]
fn sync_reports_failed_add() {
    let core = core_with(config(None, None, None, Some("r")));
    let (m, _) = core.sync("d".into());
    let mut m = m.unwrap();
    match m.step(Err("boom".into())) {
        SyncAction::Finish(r) => assert_eq!(r.message, "git add failed: boom"),
        SyncAction::Git(_) => panic!("expected the end"),
    }
}
