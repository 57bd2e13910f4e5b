use cc_switch::model_catalog::CodexAppCompatibilityEvidence;
use cc_switch::desktop::{
    already_running_unlock_result, appx_manifest_codex_executable_values, candidate_debug_ports,
    codex_desktop_executable_not_found_message, injected_unlock_result, is_codex_desktop_executable_name,
    launched_unlock_result, linux_desktop_entry_exec_values, macos_codex_bundle_executable_from_metadata,
    macos_codex_common_bundle_candidates, mark_launched, merge_compatibility_evidence,
    pick_codex_page_targets, should_launch_codex_desktop_with_ccswitch, version_tuple_from_package_name,
    version_tuple_from_text, windows_codex_package_executable_candidates, CdpTarget,
    no_compatibility_evidence, DesktopPlatform, DEFAULT_CODEX_DEBUG_PORT,
    DETECT_CODEX_MAIN_PROCESS_SCRIPT,
};

fn page(id: &str, title: &str, url: &str, ws: &str) -> CdpTarget {
    CdpTarget {
        id: id.to_string(),
        target_type: "page".to_string(),
        title: title.to_string(),
        url: url.to_string(),
        web_socket_debugger_url: Some(ws.to_string()),
    }
}

fn file_name(path: &str) -> &str {
    path.rsplit(['\\', '/']).next().unwrap_or(path)
}

#[test]
fn codex_startup_toggle_is_explicit_and_idempotent() {
    assert!(!should_launch_codex_desktop_with_ccswitch(false, false));
    assert!(!should_launch_codex_desktop_with_ccswitch(false, true));
    assert!(should_launch_codex_desktop_with_ccswitch(true, false));
    assert!(!should_launch_codex_desktop_with_ccswitch(true, true));
}

#[test]
fn desktop_executable_missing_message_preserves_cli_support_boundary() {
    for platform in [DesktopPlatform::Windows, DesktopPlatform::MacOs, DesktopPlatform::Linux, DesktopPlatform::Other] {
        let message = codex_desktop_executable_not_found_message(platform);
        assert!(message.contains("Desktop menu unlock flow"));
        assert!(message.contains("will not launch CLI/app-server codex as an Electron shell"));
        assert!(message.contains("Codex CLI/app-server is still supported"));
        assert!(message.contains("model_catalog_json"));
        assert!(message.contains("/v1/models"));
    }
}

#[test]
fn shared_cdp_port_requires_explicit_codex_target() {
    let targets = vec![page("chrome-page", "Chrome", "https://example.com", "ws://127.0.0.1:9222/devtools/page/1")];
    assert!(pick_codex_page_targets(&targets, 9222).is_err());
}

#[test]
fn windows_codex_package_candidates_cover_known_desktop_layouts() {
    let root = r"C:\Program Files\WindowsApps\OpenAI.Codex_26.608.1.0_x64__id";
    let candidates = windows_codex_package_executable_candidates(root, &Vec::new(), '\\');

    assert!(candidates.contains(&format!(r"{}\app\ChatGPT.exe", root)));
    assert!(candidates.contains(&format!(r"{}\app\Codex.exe", root)));
    assert!(candidates.contains(&format!(r"{}\app\resources\Codex.exe", root)));
    assert!(!candidates.iter().any(|path| file_name(path) == "codex.exe"));
}

#[test]
fn appx_manifest_candidates_use_declared_desktop_executable() {
    let manifest = r#"
<Package>
  <Applications>
    <Application Id="UnifiedApp" Executable="app/ChatGPT.exe" EntryPoint="Windows.FullTrustApplication" />
    <Application Id="App" Executable="app/bin/Codex.exe" EntryPoint="Windows.FullTrustApplication" />
    <Application Id="Cli" Executable="app/resources/codex.exe" EntryPoint="Windows.FullTrustApplication" />
  </Applications>
</Package>
"#;
    let declared = appx_manifest_codex_executable_values(manifest);
    let root = r"C:\pkg";
    let candidates = windows_codex_package_executable_candidates(root, &declared, '\\');

    assert_eq!(candidates[0], r"C:\pkg\app\ChatGPT.exe");
    assert!(candidates.contains(&r"C:\pkg\app\bin\Codex.exe".to_string()));
    assert!(!candidates.iter().any(|path| file_name(path) == "codex.exe"));
}

#[test]
fn codex_desktop_version_sort_keys_parse_package_and_appx_versions() {
    assert_eq!(
        version_tuple_from_package_name("OpenAI.Codex_26.623.141536.0_x64__2p2nqsd0c76g0"),
        vec![26, 623, 141536, 0]
    );
    assert_eq!(
        version_tuple_from_package_name("OpenAI.Codex.Preview_27.1.2.3_x64__2p2nqsd0c76g0"),
        vec![27, 1, 2, 3]
    );
    assert_eq!(version_tuple_from_text("26.623.141536.0"), vec![26, 623, 141536, 0]);
    assert!(version_tuple_from_package_name("Other.Package.Without.Version").is_empty());
}

#[test]
fn codex_main_process_probe_filters_cli_launcher_name_case() {
    assert!(DETECT_CODEX_MAIN_PROCESS_SCRIPT.contains("$legacyCodex = $leaf -ceq 'Codex.exe'"));
    assert!(DETECT_CODEX_MAIN_PROCESS_SCRIPT.contains("Name = 'ChatGPT.exe'"));
    assert!(DETECT_CODEX_MAIN_PROCESS_SCRIPT.contains("OpenAI\\.Codex"));
    assert!(!DETECT_CODEX_MAIN_PROCESS_SCRIPT.contains(" -ieq 'Codex.exe'"));
}

#[test]
fn codex_desktop_executable_validation_rejects_cli_launcher() {
    assert!(is_codex_desktop_executable_name(DesktopPlatform::Windows, "Codex.exe"));
    assert!(is_codex_desktop_executable_name(DesktopPlatform::Windows, "ChatGPT.exe"));
    assert!(!is_codex_desktop_executable_name(DesktopPlatform::Windows, "codex.exe"));
}

#[test]
fn macos_codex_bundle_metadata_accepts_legacy_and_unified_shells() {
    assert_eq!(
        macos_codex_bundle_executable_from_metadata("/Applications/Codex.app", "com.openai.codex", "Codex"),
        Some("/Applications/Codex.app/Contents/MacOS/Codex".to_string())
    );
    assert_eq!(
        macos_codex_bundle_executable_from_metadata("/Applications/ChatGPT.app", "com.openai.codex", "ChatGPT"),
        Some("/Applications/ChatGPT.app/Contents/MacOS/ChatGPT".to_string())
    );
}

#[test]
fn macos_chatgpt_bundle_rejects_non_codex_identity_and_unsafe_executable_names() {
    assert_eq!(
        macos_codex_bundle_executable_from_metadata("/Applications/ChatGPT.app", "com.openai.chat", "ChatGPT"),
        None
    );
    assert_eq!(
        macos_codex_bundle_executable_from_metadata("/Applications/ChatGPT.app", "com.openai.codex", "../Codex"),
        None
    );
}

#[test]
fn macos_common_candidates_include_legacy_and_unified_bundles() {
    let candidates = macos_codex_common_bundle_candidates(Some("/Users/test"));
    assert!(candidates.contains(&"/Applications/Codex.app".to_string()));
    assert!(candidates.contains(&"/Applications/ChatGPT.app".to_string()));
    assert!(candidates.contains(&"/Users/test/Applications/Codex.app".to_string()));
    assert!(candidates.contains(&"/Users/test/Applications/ChatGPT.app".to_string()));
}

#[test]
fn linux_desktop_entry_exec_parser_keeps_absolute_exec_paths() {
    let values = linux_desktop_entry_exec_values(
        "Name=Codex\nExec=/opt/Codex/Codex --no-sandbox %U\nExec=flatpak run com.openai.Codex\n",
    );
    assert_eq!(values, vec!["/opt/Codex/Codex"]);
}

#[test]
fn default_cdp_port_allows_initializing_codex_page() {
    let targets = vec![page("codex-page", "", "", "ws://127.0.0.1:9229/devtools/page/1")];
    let targets = pick_codex_page_targets(&targets, DEFAULT_CODEX_DEBUG_PORT)
        .expect("default Codex CDP port should allow early blank targets");
    assert_eq!(targets[0].id, "codex-page");
}

#[test]
fn codex_cdp_port_injects_all_matching_pages() {
    let targets = vec![
        page("codex-main", "Codex", "app://codex/index.html", "ws://127.0.0.1:9229/devtools/page/1"),
        page("codex-dialog", "Codex", "app://codex/dialog.html", "ws://127.0.0.1:9229/devtools/page/2"),
    ];
    let picked = pick_codex_page_targets(&targets, DEFAULT_CODEX_DEBUG_PORT)
        .expect("all Codex targets should be injectable");
    assert_eq!(
        picked.iter().map(|target| target.id.as_str()).collect::<Vec<_>>(),
        vec!["codex-main", "codex-dialog"]
    );
}

#[test]
fn candidate_ports_are_sorted_and_unique() {
    assert_eq!(candidate_debug_ports(9229), vec![9222, 9223, 9229, 9230, 9231]);
    assert_eq!(candidate_debug_ports(9000), vec![9000, 9222, 9223, 9229, 9230, 9231]);
}

#[test]
fn compatibility_evidence_keeps_the_page_that_requested_a_sync() {
    let requested = CodexAppCompatibilityEvidence {
        history_sync_requested: true,
        history_catalog_complete: Some(false),
        history_catalog_count: Some(17),
    };
    let merged = merge_compatibility_evidence(no_compatibility_evidence(), requested);
    assert_eq!(merged, requested);
    let kept = merge_compatibility_evidence(merged, no_compatibility_evidence());
    assert_eq!(kept, requested);
}

#[test]
fn unlock_results_explain_what_happened() {
    let names = vec!["gpt-5".to_string(), "qwen3".to_string()];
    let target = page("codex-main", "Codex", "app://codex/index.html", "ws://x");
    let evidence = CodexAppCompatibilityEvidence {
        history_sync_requested: true,
        history_catalog_complete: Some(true),
        history_catalog_count: Some(3),
    };
    let injected = injected_unlock_result(&vec![9229], 9229, &target, &names, None, evidence);
    assert!(injected.injected);
    assert_eq!(injected.model_count, 2);
    assert_eq!(injected.target_id.as_deref(), Some("codex-main"));
    assert!(injected.message.contains("native history catalog sync was requested"));

    let without_sync = injected_unlock_result(&vec![9229], 9229, &target, &names, None, no_compatibility_evidence());
    assert!(without_sync.message.contains("localThreadCatalog service was not available"));

    let launched = mark_launched(injected, "/opt/Codex/Codex".to_string());
    assert!(launched.launched);
    assert_eq!(launched.codex_executable.as_deref(), Some("/opt/Codex/Codex"));

    let running = already_running_unlock_result(vec![9222, 9229], &names, "/opt/Codex/Codex".to_string());
    assert!(!running.injected && !running.launched);
    assert!(running.message.starts_with("Codex App is already running without an injectable CDP port"));

    let waiting = launched_unlock_result(&names, "/opt/Codex/Codex".to_string(), false);
    assert_eq!(waiting.debug_port, Some(9229));
    assert!(waiting.message.contains("waiting for the renderer target"));
    let timeout = launched_unlock_result(&names, "/opt/Codex/Codex".to_string(), true);
    assert!(timeout.message.contains("before timeout"));
}
