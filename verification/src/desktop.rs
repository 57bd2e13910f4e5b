//! Codex Desktop discovery: which debugger targets belong to Codex, which ports
//! to probe, which executables are the Desktop shell rather than the CLI, and
//! the candidate install locations of each platform.
use vstd::prelude::*;
use crate::text::{
    chars_of, chars_eq, concat3, contains, contains_chars, eq_ignore_case, lower, lower_chars,
    owned, parse_u32, parse_u32_chars, slice_chars, split, split_chars, starts_with,
    starts_with_chars, str_eq, string_of, trim, trim_chars, lines, lines_chars, words, words_chars,
    views, opt_view,
};
use crate::paths::{is_separator, join_path, path_join};
use crate::model_catalog::CodexAppCompatibilityEvidence;

verus! {

/// The remote debugging port CCSwitchMulti launches Codex Desktop with.
pub const DEFAULT_CODEX_DEBUG_PORT: u16 = 9229;

/// The bundle identifier of Codex Desktop on macOS.
pub const CODEX_DESKTOP_BUNDLE_IDENTIFIER: &'static str = "com.openai.codex";

/// The key under which the renderer compatibility layer keeps its state.
pub const MODEL_PICKER_PATCH_KEY: &'static str = "__ccSwitchCodexAppCompatibilityV5";

/// The file that remembers the last confirmed Desktop executable.
pub const REMEMBERED_CODEX_DESKTOP_EXECUTABLE_FILENAME: &'static str = "codex-desktop-executable.json";

/// PowerShell query for the running Codex Desktop main process on Windows.
///
/// The unified shell is named `ChatGPT.exe`; only a process from an `OpenAI.Codex`
/// package directory is accepted, so a standalone ChatGPT app is never taken for Codex.
pub const DETECT_CODEX_MAIN_PROCESS_SCRIPT: &'static str = r#"
Get-CimInstance Win32_Process -Filter "Name = 'Codex.exe' OR Name = 'ChatGPT.exe'" |
  Where-Object {
    if (-not $_.ExecutablePath -or $_.CommandLine -match ' --type=') { return $false }
    $leaf = Split-Path -Leaf $_.ExecutablePath
    $legacyCodex = $leaf -ceq 'Codex.exe'
    $unifiedCodex = $leaf -ceq 'ChatGPT.exe' -and $_.ExecutablePath -match '\\WindowsApps\\OpenAI\.Codex(?:\.Preview)?_'
    return $legacyCodex -or $unifiedCodex
  } |
  Select-Object -First 1 -ExpandProperty ExecutablePath
"#;

/// The operating system whose conventions apply.
#[derive(Debug, Clone, Copy, PartialEq, Eq, Structural)]
pub enum DesktopPlatform {
    Windows,
    MacOs,
    Linux,
    Other,
}

/// A page target as listed by the Chrome DevTools Protocol `/json` endpoint.
#[derive(Debug)]
pub struct CdpTarget {
    pub id: String,
    pub target_type: String,
    pub title: String,
    pub url: String,
    pub web_socket_debugger_url: Option<String>,
}

impl CdpTarget {
    /// A copy with equal fields.
    pub fn duplicate(&self) -> (r: CdpTarget)
        ensures
            r == *self,
    {
        CdpTarget {
            id: self.id.clone(),
            target_type: self.target_type.clone(),
            title: self.title.clone(),
            url: self.url.clone(),
            web_socket_debugger_url: match &self.web_socket_debugger_url {
                Some(u) => Some(u.clone()),
                None => None,
            },
        }
    }
}

// ---------------------------------------------------------------------------
// Launch policy
// ---------------------------------------------------------------------------

/// Codex Desktop is launched with CCSwitchMulti only when the user enabled it and no
/// Codex main process is already running.
pub fn should_launch_codex_desktop_with_ccswitch(enabled: bool, codex_running: bool) -> (r: bool)
    ensures
        r == (enabled && !codex_running),
{
    enabled && !codex_running
}

pub open spec fn not_found_sources(platform: DesktopPlatform) -> Seq<char> {
    match platform {
        DesktopPlatform::Windows => "running Desktop process, remembered Desktop path, MSIX/Appx package metadata and manifest, App Paths registry entries, PATH commands, and common local install folders"@,
        DesktopPlatform::MacOs => "running Desktop process, remembered Desktop path, /Applications, ~/Applications, and Spotlight-discovered com.openai.codex bundles (Codex.app or ChatGPT.app)"@,
        DesktopPlatform::Linux => "running Desktop process, remembered Desktop path, PATH entries for Codex/Codex.AppImage, .desktop entries with absolute Exec paths, and common AppImage or /opt install folders"@,
        DesktopPlatform::Other => "running Desktop process, remembered Desktop path, and platform-specific install folders"@,
    }
}

pub open spec fn not_found_prefix() -> Seq<char> {
    "Codex Desktop executable was not found. CCSwitchMulti checked "@
}

pub open spec fn not_found_suffix() -> Seq<char> {
    ". Install or start the Codex Desktop app once. The Desktop menu unlock flow will not launch CLI/app-server codex as an Electron shell; Codex CLI/app-server is still supported through live config.toml, model_catalog_json, the local /v1/models endpoint, and MultiRouter request routing."@
}

/// The explanation given when no Desktop executable was found: which places were
/// searched on this platform, and that the CLI remains supported by other means.
pub fn codex_desktop_executable_not_found_message(platform: DesktopPlatform) -> (r: String)
    ensures
        r@ == not_found_prefix() + not_found_sources(platform) + not_found_suffix(),
{
    let sources = match platform {
        DesktopPlatform::Windows => "running Desktop process, remembered Desktop path, MSIX/Appx package metadata and manifest, App Paths registry entries, PATH commands, and common local install folders",
        DesktopPlatform::MacOs => "running Desktop process, remembered Desktop path, /Applications, ~/Applications, and Spotlight-discovered com.openai.codex bundles (Codex.app or ChatGPT.app)",
        DesktopPlatform::Linux => "running Desktop process, remembered Desktop path, PATH entries for Codex/Codex.AppImage, .desktop entries with absolute Exec paths, and common AppImage or /opt install folders",
        DesktopPlatform::Other => "running Desktop process, remembered Desktop path, and platform-specific install folders",
    };
    concat3(
        "Codex Desktop executable was not found. CCSwitchMulti checked ",
        sources,
        ". Install or start the Codex Desktop app once. The Desktop menu unlock flow will not launch CLI/app-server codex as an Electron shell; Codex CLI/app-server is still supported through live config.toml, model_catalog_json, the local /v1/models endpoint, and MultiRouter request routing.",
    )
}

/// The message returned when Codex runs without a debugging port that can be used.
pub fn already_running_without_cdp_message() -> (r: &'static str)
    ensures
        r@ == "Codex App is already running without an injectable CDP port. Fully quit Codex, then launch it from CCSwitchMulti so the history catalog and model compatibility layer can be installed."@,
{
    "Codex App is already running without an injectable CDP port. Fully quit Codex, then launch it from CCSwitchMulti so the history catalog and model compatibility layer can be installed."
}

// ---------------------------------------------------------------------------
// Debugging ports and targets
// ---------------------------------------------------------------------------

pub open spec fn probed_port(p: u16, preferred: u16) -> bool {
    p == preferred || p == 9229 || p == 9222 || p == 9223 || p == 9230 || p == 9231
}

pub open spec fn strictly_increasing(s: Seq<u16>) -> bool {
    forall|i: int, j: int| 0 <= i < j < s.len() ==> s[i] < s[j]
}

/// The debugging ports to probe: the preferred port and the usual Chromium ports,
/// in ascending order without repetition.
pub fn candidate_debug_ports(preferred: u16) -> (r: Vec<u16>)
    ensures
        strictly_increasing(r@),
        forall|p: u16| r@.contains(p) <==> probed_port(p, preferred),
{
    let mut r: Vec<u16> = Vec::new();
    if preferred < 9222 {
        r.push(preferred);
    }
    r.push(9222);
    r.push(9223);
    if 9223 < preferred && preferred < 9229 {
        r.push(preferred);
    }
    r.push(9229);
    r.push(9230);
    if 9230 < preferred && preferred < 9231 {
        r.push(preferred);
    }
    r.push(9231);
    if preferred > 9231 {
        r.push(preferred);
    }
    let ghost p = preferred;
    proof {
        if p < 9222 {
            assert(r@ =~= seq![p, 9222u16, 9223u16, 9229u16, 9230u16, 9231u16]);
        } else if 9223 < p && p < 9229 {
            assert(r@ =~= seq![9222u16, 9223u16, p, 9229u16, 9230u16, 9231u16]);
        } else if p > 9231 {
            assert(r@ =~= seq![9222u16, 9223u16, 9229u16, 9230u16, 9231u16, p]);
        } else {
            assert(r@ =~= seq![9222u16, 9223u16, 9229u16, 9230u16, 9231u16]);
        }
    }
    assert forall|q: u16| r@.contains(q) <==> probed_port(q, preferred) by {
        if probed_port(q, preferred) {
            if q == 9222 { assert(r@[if p < 9222 { 1int } else { 0int }] == q); }
            else if q == 9223 { assert(r@[if p < 9222 { 2int } else { 1int }] == q); }
            else if q == 9229 { assert(r@[if p < 9222 || (9223 < p && p < 9229) { 3int } else { 2int }] == q); }
            else if q == 9230 { assert(r@[if p < 9222 || (9223 < p && p < 9229) { 4int } else { 3int }] == q); }
            else if q == 9231 { assert(r@[if p < 9222 || (9223 < p && p < 9229) { 5int } else { 4int }] == q); }
            else if p < 9222 { assert(r@[0] == q); }
            else if 9223 < p && p < 9229 { assert(r@[2] == q); }
            else { assert(r@[5] == q); }
        }
    }
    r
}

/// A page target with a usable websocket debugger URL.
pub open spec fn is_injectable_page(t: CdpTarget) -> bool {
    &&& t.target_type@ == "page"@
    &&& t.web_socket_debugger_url is Some
    &&& t.web_socket_debugger_url->0@.len() > 0
}

/// The title or URL names Codex or an `app://` document.
pub open spec fn names_codex(t: CdpTarget) -> bool {
    let haystack = lower(t.title@ + " "@ + t.url@);
    contains(haystack, "codex"@) || contains(haystack, "app://"@)
}

pub fn target_matches_codex_desktop(target: &CdpTarget) -> (r: bool)
    ensures
        r == names_codex(*target),
{
    let haystack = concat3(target.title.as_str(), " ", target.url.as_str());
    let l = lower_chars(chars_of(haystack.as_str()).as_slice());
    contains_chars(l.as_slice(), chars_of("codex").as_slice()) || contains_chars(
        l.as_slice(),
        chars_of("app://").as_slice(),
    )
}

pub fn is_injectable_page_target(target: &CdpTarget) -> (r: bool)
    ensures
        r == is_injectable_page(*target),
{
    str_eq(target.target_type.as_str(), "page") && match &target.web_socket_debugger_url {
        Some(url) => chars_of(url.as_str()).len() > 0,
        None => false,
    }
}

/// The injectable pages among `targets`, in order; with `codex_only`, only those naming Codex.
pub open spec fn pages(targets: Seq<CdpTarget>, codex_only: bool) -> Seq<CdpTarget>
    decreases targets.len(),
{
    if targets.len() == 0 {
        Seq::empty()
    } else {
        let rest = pages(targets.drop_last(), codex_only);
        let t = targets.last();
        if is_injectable_page(t) && (!codex_only || names_codex(t)) {
            rest.push(t)
        } else {
            rest
        }
    }
}

/// The targets chosen on a port: the Codex pages; on the default Codex port, any
/// page while none names Codex yet; otherwise none (an error).
pub open spec fn picked_targets(targets: Seq<CdpTarget>, port: u16) -> Option<Seq<CdpTarget>> {
    if pages(targets, true).len() > 0 {
        Some(pages(targets, true))
    } else if port == DEFAULT_CODEX_DEBUG_PORT && pages(targets, false).len() > 0 {
        Some(pages(targets, false))
    } else {
        None
    }
}

/// Chooses the renderer pages of Codex Desktop among the targets of a debugging port.
///
/// A shared port such as 9222 may belong to Chrome or another Electron app, so only
/// pages naming Codex are taken there; on Codex's own default port a page whose
/// title is not yet initialised is accepted as well.
pub fn pick_codex_page_targets(targets: &[CdpTarget], debug_port: u16) -> (r: Result<
    Vec<CdpTarget>,
    String,
>)
    ensures
        match r {
            Ok(v) => picked_targets(targets@, debug_port) == Some(v@),
            Err(e) => picked_targets(targets@, debug_port) is None
                && e@ == "No Codex Desktop page target was found on shared CDP port"@,
        },
{
    let mut all_pages: Vec<CdpTarget> = Vec::new();
    let mut codex_pages: Vec<CdpTarget> = Vec::new();
    let mut i: usize = 0;
    while i < targets.len()
        invariant
            i <= targets.len(),
            all_pages@ == pages(targets@.take(i as int), false),
            codex_pages@ == pages(targets@.take(i as int), true),
        decreases targets.len() - i,
    {
        assert(targets@.take(i + 1).drop_last() =~= targets@.take(i as int));
        let target = &targets[i];
        if is_injectable_page_target(target) {
            all_pages.push(target.duplicate());
            if target_matches_codex_desktop(target) {
                codex_pages.push(target.duplicate());
            }
        }
        i = i + 1;
    }
    assert(targets@.take(targets.len() as int) =~= targets@);
    if codex_pages.len() > 0 {
        return Ok(codex_pages);
    }
    if debug_port == DEFAULT_CODEX_DEBUG_PORT && all_pages.len() > 0 {
        return Ok(all_pages);
    }
    Err(owned("No Codex Desktop page target was found on shared CDP port"))
}

// ---------------------------------------------------------------------------
// Desktop executables
// ---------------------------------------------------------------------------

/// The file name of the Desktop shell on each platform; lower-case `codex` is the CLI.
pub open spec fn desktop_executable_name(platform: DesktopPlatform, name: Seq<char>) -> bool {
    match platform {
        DesktopPlatform::Windows => name == "Codex.exe"@ || name == "ChatGPT.exe"@,
        DesktopPlatform::Linux => name == "Codex"@ || (starts_with(name, "Codex"@)
            && crate::text::ends_with(name, ".AppImage"@)),
        _ => false,
    }
}

pub fn is_codex_desktop_executable_name(platform: DesktopPlatform, name: &str) -> (r: bool)
    ensures
        r == desktop_executable_name(platform, name@),
{
    match platform {
        DesktopPlatform::Windows => str_eq(name, "Codex.exe") || str_eq(name, "ChatGPT.exe"),
        DesktopPlatform::Linux => str_eq(name, "Codex") || (crate::text::str_starts_with(
            name,
            "Codex",
        ) && crate::text::str_ends_with(name, ".AppImage")),
        _ => false,
    }
}

/// The components of a path, split at either separator.
pub open spec fn components_from(s: Seq<char>, cur: Seq<char>) -> Seq<Seq<char>>
    decreases s.len(),
{
    if s.len() == 0 {
        seq![cur]
    } else if is_separator(s[0]) {
        seq![cur] + components_from(s.drop_first(), Seq::empty())
    } else {
        components_from(s.drop_first(), cur.push(s[0]))
    }
}

pub open spec fn components(s: Seq<char>) -> Seq<Seq<char>> {
    components_from(s, Seq::empty())
}

/// A directory of the Codex MSIX package (stable or preview).
pub open spec fn codex_package_dir_name(name: Seq<char>) -> bool {
    starts_with(name, "OpenAI.Codex_"@) || starts_with(name, "OpenAI.Codex.Preview_"@)
}

/// On Windows the legacy `Codex.exe` is accepted anywhere; the unified `ChatGPT.exe`
/// only inside an `OpenAI.Codex` package directory.
pub open spec fn windows_desktop_executable_path(path: Seq<char>) -> bool {
    let name = crate::paths::last_component(path);
    desktop_executable_name(DesktopPlatform::Windows, name) && (name == "Codex.exe"@ || exists|
        k: int,
    |
        0 <= k < components(path).len() && #[trigger] codex_package_dir_name(components(path)[k]))
}

/// `components` as owned strings.
pub fn path_components(v: &[char]) -> (r: Vec<Vec<char>>)
    ensures
        r@.map_values(|f: Vec<char>| f@) == components(v@),
{
    let mut out: Vec<Vec<char>> = Vec::new();
    let mut cur: Vec<char> = Vec::new();
    let mut i: usize = 0;
    assert(v@.skip(0) =~= v@);
    while i < v.len()
        invariant
            i <= v.len(),
            out@.map_values(|f: Vec<char>| f@) + components_from(v@.skip(i as int), cur@)
                == components(v@),
        decreases v.len() - i,
    {
        let ghost rest = v@.skip(i as int);
        assert(rest.drop_first() =~= v@.skip(i + 1));
        if v[i] == '/' || v[i] == '\\' {
            let ghost old_out = out@.map_values(|f: Vec<char>| f@);
            let ghost c = cur@;
            out.push(cur);
            cur = Vec::new();
            assert(out@.map_values(|f: Vec<char>| f@) =~= old_out + seq![c]);
            assert(old_out + seq![c] + components_from(v@.skip(i + 1), cur@) =~= old_out
                + components_from(rest, c));
        } else {
            cur.push(v[i]);
        }
        i = i + 1;
    }
    let ghost old_out = out@.map_values(|f: Vec<char>| f@);
    out.push(cur);
    assert(out@.map_values(|f: Vec<char>| f@) =~= old_out + seq![out@.last()@]);
    out
}

/// Whether a Windows path is the Codex Desktop shell.
pub fn is_windows_codex_desktop_executable_path(path: &str) -> (r: bool)
    ensures
        r == windows_desktop_executable_path(path@),
{
    let v = chars_of(path);
    let name = crate::paths::last_component_chars(v.as_slice());
    let name_s = string_of(name.as_slice());
    if !is_codex_desktop_executable_name(DesktopPlatform::Windows, name_s.as_str()) {
        return false;
    }
    if str_eq(name_s.as_str(), "Codex.exe") {
        return true;
    }
    let comps = path_components(v.as_slice());
    let ghost cs = comps@.map_values(|f: Vec<char>| f@);
    let stable = chars_of("OpenAI.Codex_");
    let preview = chars_of("OpenAI.Codex.Preview_");
    let mut k: usize = 0;
    while k < comps.len()
        invariant
            k <= comps.len(),
            cs == comps@.map_values(|f: Vec<char>| f@),
            cs == components(v@),
            v@ == path@,
            desktop_executable_name(DesktopPlatform::Windows, crate::paths::last_component(path@)),
            stable@ == "OpenAI.Codex_"@,
            preview@ == "OpenAI.Codex.Preview_"@,
            forall|m: int| 0 <= m < k ==> !codex_package_dir_name(cs[m]),
        decreases comps.len() - k,
    {
        if starts_with_chars(comps[k].as_slice(), stable.as_slice()) || starts_with_chars(
            comps[k].as_slice(),
            preview.as_slice(),
        ) {
            assert(codex_package_dir_name(cs[k as int]));
            return true;
        }
        k = k + 1;
    }
    false
}

/// A Desktop shell is launched from `<bundle>/Contents/MacOS/<name>` when the bundle
/// declares the Codex identity and its executable is a plain file name.
pub open spec fn plain_file_name(name: Seq<char>) -> bool {
    &&& name.len() > 0
    &&& !name.contains('/')
    &&& name != "."@
    &&& name != ".."@
}

pub open spec fn bundle_executable(
    bundle: Seq<char>,
    identifier: Seq<char>,
    executable_name: Seq<char>,
) -> Option<Seq<char>> {
    if trim(identifier) == CODEX_DESKTOP_BUNDLE_IDENTIFIER@ && plain_file_name(
        trim(executable_name),
    ) {
        Some(
            path_join(
                path_join(path_join(bundle, "Contents"@, '/'), "MacOS"@, '/'),
                trim(executable_name),
                '/',
            ),
        )
    } else {
        None
    }
}

pub fn macos_codex_bundle_executable_from_metadata(
    bundle: &str,
    bundle_identifier: &str,
    executable_name: &str,
) -> (r: Option<String>)
    ensures
        match r {
            Some(p) => bundle_executable(bundle@, bundle_identifier@, executable_name@) == Some(p@),
            None => bundle_executable(bundle@, bundle_identifier@, executable_name@) is None,
        },
{
    let id = trim_chars(chars_of(bundle_identifier).as_slice());
    if !chars_eq(id.as_slice(), chars_of(CODEX_DESKTOP_BUNDLE_IDENTIFIER).as_slice()) {
        return None;
    }
    let name = trim_chars(chars_of(executable_name).as_slice());
    let mut has_slash = false;
    let mut i: usize = 0;
    while i < name.len()
        invariant
            i <= name.len(),
            has_slash == exists|k: int| 0 <= k < i && name@[k] == '/',
        decreases name.len() - i,
    {
        if name[i] == '/' {
            has_slash = true;
        }
        i = i + 1;
    }
    assert(has_slash == name@.contains('/'));
    let name_s = string_of(name.as_slice());
    if name.len() == 0 || has_slash || str_eq(name_s.as_str(), ".") || str_eq(name_s.as_str(), "..") {
        return None;
    }
    let contents = join_path(bundle, "Contents", '/');
    let macos = join_path(contents.as_str(), "MacOS", '/');
    Some(join_path(macos.as_str(), name_s.as_str(), '/'))
}

/// The usual places of the Codex and unified ChatGPT bundles on macOS.
pub fn macos_codex_common_bundle_candidates(home: Option<&str>) -> (r: Vec<String>)
    ensures
        views(r@) == (match home {
            Some(h) => seq![
                "/Applications/Codex.app"@,
                "/Applications/ChatGPT.app"@,
                path_join(path_join(h@, "Applications"@, '/'), "Codex.app"@, '/'),
                path_join(path_join(h@, "Applications"@, '/'), "ChatGPT.app"@, '/'),
            ],
            None => seq!["/Applications/Codex.app"@, "/Applications/ChatGPT.app"@],
        }),
{
    let mut r: Vec<String> = Vec::new();
    r.push(owned("/Applications/Codex.app"));
    r.push(owned("/Applications/ChatGPT.app"));
    if let Some(h) = home {
        let applications = join_path(h, "Applications", '/');
        r.push(join_path(applications.as_str(), "Codex.app", '/'));
        r.push(join_path(applications.as_str(), "ChatGPT.app", '/'));
    }
    assert(views(r@) =~= (match home {
        Some(h) => seq![
            "/Applications/Codex.app"@,
            "/Applications/ChatGPT.app"@,
            path_join(path_join(h@, "Applications"@, '/'), "Codex.app"@, '/'),
            path_join(path_join(h@, "Applications"@, '/'), "ChatGPT.app"@, '/'),
        ],
        None => seq!["/Applications/Codex.app"@, "/Applications/ChatGPT.app"@],
    }));
    r
}

/// The usual places of Codex Desktop and its AppImage on Linux.
pub fn linux_codex_common_executable_candidates(home: Option<&str>) -> (r: Vec<String>)
    ensures
        views(r@) == seq![
            "/usr/local/bin/Codex"@,
            "/usr/bin/Codex"@,
            "/opt/Codex/Codex"@,
            "/opt/OpenAI/Codex/Codex"@,
        ] + match home {
            Some(h) => seq![
                path_join(path_join(path_join(h@, ".local"@, '/'), "bin"@, '/'), "Codex"@, '/'),
                path_join(path_join(path_join(h@, ".local"@, '/'), "bin"@, '/'), "Codex.AppImage"@, '/'),
                path_join(path_join(h@, "Applications"@, '/'), "Codex"@, '/'),
                path_join(path_join(h@, "Applications"@, '/'), "Codex.AppImage"@, '/'),
            ],
            None => Seq::empty(),
        },
{
    let mut r: Vec<String> = Vec::new();
    r.push(owned("/usr/local/bin/Codex"));
    r.push(owned("/usr/bin/Codex"));
    r.push(owned("/opt/Codex/Codex"));
    r.push(owned("/opt/OpenAI/Codex/Codex"));
    if let Some(h) = home {
        let local = join_path(h, ".local", '/');
        let bin = join_path(local.as_str(), "bin", '/');
        let applications = join_path(h, "Applications", '/');
        r.push(join_path(bin.as_str(), "Codex", '/'));
        r.push(join_path(bin.as_str(), "Codex.AppImage", '/'));
        r.push(join_path(applications.as_str(), "Codex", '/'));
        r.push(join_path(applications.as_str(), "Codex.AppImage", '/'));
    }
    assert(views(r@) =~= seq![
            "/usr/local/bin/Codex"@,
            "/usr/bin/Codex"@,
            "/opt/Codex/Codex"@,
            "/opt/OpenAI/Codex/Codex"@,
        ] + match home {
            Some(h) => seq![
                path_join(path_join(path_join(h@, ".local"@, '/'), "bin"@, '/'), "Codex"@, '/'),
                path_join(path_join(path_join(h@, ".local"@, '/'), "bin"@, '/'), "Codex.AppImage"@, '/'),
                path_join(path_join(h@, "Applications"@, '/'), "Codex"@, '/'),
                path_join(path_join(h@, "Applications"@, '/'), "Codex.AppImage"@, '/'),
            ],
            None => Seq::empty(),
        });
    r
}

// ---------------------------------------------------------------------------
// Desktop entries, package layouts and versions
// ---------------------------------------------------------------------------

/// The absolute executable of an `Exec=` line of a `.desktop` file; wrapper
/// commands such as `flatpak run ...` are not absolute and yield nothing.
pub open spec fn exec_line_value(line: Seq<char>) -> Option<Seq<char>> {
    if starts_with(line, "Exec="@) {
        let ws = words(line.skip(5));
        if ws.len() > 0 && ws[0][0] == '/' {
            Some(ws[0])
        } else {
            None
        }
    } else {
        None
    }
}

pub open spec fn exec_values(ls: Seq<Seq<char>>) -> Seq<Seq<char>>
    decreases ls.len(),
{
    if ls.len() == 0 {
        Seq::empty()
    } else {
        match exec_line_value(ls.last()) {
            Some(v) => exec_values(ls.drop_last()).push(v),
            None => exec_values(ls.drop_last()),
        }
    }
}

/// The absolute `Exec=` paths of a `.desktop` file, in order.
pub fn linux_desktop_entry_exec_values(text: &str) -> (r: Vec<String>)
    ensures
        views(r@) == exec_values(lines(text@)),
{
    let ls = lines_chars(chars_of(text).as_slice());
    let ghost lv = ls@.map_values(|f: Vec<char>| f@);
    let prefix = chars_of("Exec=");
    proof {
        reveal_strlit("Exec=");
    }
    let mut r: Vec<String> = Vec::new();
    let mut i: usize = 0;
    while i < ls.len()
        invariant
            i <= ls.len(),
            lv == ls@.map_values(|f: Vec<char>| f@),
            prefix@ == "Exec="@,
            prefix@.len() == 5,
            views(r@) == exec_values(lv.take(i as int)),
        decreases ls.len() - i,
    {
        assert(lv.take(i + 1).drop_last() =~= lv.take(i as int));
        let line = &ls[i];
        let ghost old_r = views(r@);
        if starts_with_chars(line.as_slice(), prefix.as_slice()) {
            let rest = slice_chars(line.as_slice(), 5, line.len());
            assert(rest@ =~= line@.skip(5));
            let ws = words_chars(rest.as_slice());
            assert(ws@.map_values(|f: Vec<char>| f@) == words(line@.skip(5)));
            if ws.len() > 0 {
                proof {
                    crate::text::lemma_words_nonempty(line@.skip(5), Seq::empty());
                    assert(ws@[0]@ == words(line@.skip(5))[0]);
                }
                if ws[0][0] == '/' {
                    r.push(string_of(ws[0].as_slice()));
                    assert(views(r@) =~= old_r.push(ws@[0]@));
                }
            }
        }
        i = i + 1;
    }
    assert(lv.take(ls.len() as int) =~= lv);
    r
}

/// The numeric fields of a dotted version; fields that are not numbers are skipped.
pub open spec fn numeric_fields(parts: Seq<Seq<char>>) -> Seq<u32>
    decreases parts.len(),
{
    if parts.len() == 0 {
        Seq::empty()
    } else {
        match parse_u32(parts.last()) {
            Some(n) => numeric_fields(parts.drop_last()).push(n),
            None => numeric_fields(parts.drop_last()),
        }
    }
}

pub open spec fn version_tuple(version: Seq<char>) -> Seq<u32> {
    numeric_fields(split(version, '.'))
}

/// The sort key of a version text such as `26.623.141536.0`.
pub fn version_tuple_from_text(version: &str) -> (r: Vec<u32>)
    ensures
        r@ == version_tuple(version@),
{
    let parts = split_chars(chars_of(version).as_slice(), '.');
    let ghost pv = parts@.map_values(|f: Vec<char>| f@);
    let mut r: Vec<u32> = Vec::new();
    let mut i: usize = 0;
    while i < parts.len()
        invariant
            i <= parts.len(),
            pv == parts@.map_values(|f: Vec<char>| f@),
            r@ == numeric_fields(pv.take(i as int)),
        decreases parts.len() - i,
    {
        assert(pv.take(i + 1).drop_last() =~= pv.take(i as int));
        match parse_u32_chars(parts[i].as_slice()) {
            Some(n) => r.push(n),
            None => {},
        }
        i = i + 1;
    }
    assert(pv.take(parts.len() as int) =~= pv);
    r
}

/// The version in a package directory name such as
/// `OpenAI.Codex_26.623.141536.0_x64__2p2nqsd0c76g0`: its second `_` field.
pub open spec fn package_version(name: Seq<char>) -> Seq<u32> {
    let fields = split(name, '_');
    if fields.len() > 1 {
        version_tuple(fields[1])
    } else {
        Seq::empty()
    }
}

pub fn version_tuple_from_package_name(name: &str) -> (r: Vec<u32>)
    ensures
        r@ == package_version(name@),
{
    let fields = split_chars(chars_of(name).as_slice(), '_');
    if fields.len() > 1 {
        assert(fields@[1]@ == split(name@, '_')[1]);
        let field = string_of(fields[1].as_slice());
        version_tuple_from_text(field.as_str())
    } else {
        Vec::new()
    }
}

/// Windows paths compare without regard to ASCII case.
pub fn paths_equal_ignore_ascii_case(left: &str, right: &str) -> (r: bool)
    ensures
        r == eq_ignore_case(left@, right@),
{
    crate::text::eq_ignore_ascii_case(left, right)
}

/// The paths with later case-insensitive duplicates removed, first spelling kept.
pub open spec fn dedupe(ps: Seq<Seq<char>>) -> Seq<Seq<char>>
    decreases ps.len(),
{
    if ps.len() == 0 {
        Seq::empty()
    } else {
        let r = dedupe(ps.drop_last());
        if exists|k: int| 0 <= k < r.len() && eq_ignore_case(#[trigger] r[k], ps.last()) {
            r
        } else {
            r.push(ps.last())
        }
    }
}

pub fn dedupe_paths(paths: Vec<String>) -> (r: Vec<String>)
    ensures
        views(r@) == dedupe(views(paths@)),
{
    let ghost pv = views(paths@);
    let mut r: Vec<String> = Vec::new();
    let mut i: usize = 0;
    while i < paths.len()
        invariant
            i <= paths.len(),
            pv == views(paths@),
            views(r@) == dedupe(pv.take(i as int)),
        decreases paths.len() - i,
    {
        assert(pv.take(i + 1).drop_last() =~= pv.take(i as int));
        let mut found = false;
        let mut k: usize = 0;
        while k < r.len()
            invariant
                i < paths.len(),
                k <= r.len(),
                found == exists|m: int| 0 <= m < k && eq_ignore_case(#[trigger] views(r@)[m], paths@[i as int]@),
            decreases r.len() - k,
        {
            assert(views(r@)[k as int] == r@[k as int]@);
            if paths_equal_ignore_ascii_case(r[k].as_str(), paths[i].as_str()) {
                found = true;
            }
            k = k + 1;
        }
        if !found {
            let ghost old = views(r@);
            r.push(paths[i].clone());
            assert(views(r@) =~= old.push(pv[i as int]));
        }
        i = i + 1;
    }
    assert(pv.take(paths.len() as int) =~= pv);
    r
}

/// A path with `/` written as `\` (`str::replace('/', "\\")`).
pub open spec fn backslashed(s: Seq<char>) -> Seq<char> {
    s.map_values(|c: char| if c == '/' { '\\' } else { c })
}

pub fn to_backslashes(s: &str) -> (r: String)
    ensures
        r@ == backslashed(s@),
{
    let v = chars_of(s);
    let mut out: Vec<char> = Vec::new();
    let mut i: usize = 0;
    while i < v.len()
        invariant
            i <= v.len(),
            out@ == backslashed(v@.take(i as int)),
        decreases v.len() - i,
    {
        out.push(if v[i] == '/' { '\\' } else { v[i] });
        i = i + 1;
        assert(out@ =~= backslashed(v@.take(i as int)));
    }
    assert(v@.take(v.len() as int) =~= v@);
    string_of(out.as_slice())
}

/// The Desktop shell candidates of an MSIX package: the executables its manifest
/// declares, then the known layouts (`app\ChatGPT.exe`, `app\Codex.exe`,
/// `app\resources\Codex.exe`, `ChatGPT.exe`, `Codex.exe`), case-insensitive duplicates removed.
pub open spec fn package_candidates(
    root: Seq<char>,
    manifest: Seq<Seq<char>>,
    sep: char,
) -> Seq<Seq<char>> {
    dedupe(
        manifest.map_values(|rel: Seq<char>| path_join(root, backslashed(rel), sep)) + seq![
            path_join(path_join(root, "app"@, sep), "ChatGPT.exe"@, sep),
            path_join(path_join(root, "app"@, sep), "Codex.exe"@, sep),
            path_join(path_join(path_join(root, "app"@, sep), "resources"@, sep), "Codex.exe"@, sep),
            path_join(root, "ChatGPT.exe"@, sep),
            path_join(root, "Codex.exe"@, sep),
        ],
    )
}

pub fn windows_codex_package_executable_candidates(
    package_root: &str,
    manifest_executables: &Vec<String>,
    sep: char,
) -> (r: Vec<String>)
    requires
        is_separator(sep),
    ensures
        views(r@) == package_candidates(package_root@, views(manifest_executables@), sep),
{
    let mut all: Vec<String> = Vec::new();
    let ghost mv = views(manifest_executables@);
    let mut i: usize = 0;
    while i < manifest_executables.len()
        invariant
            i <= manifest_executables.len(),
            is_separator(sep),
            mv == views(manifest_executables@),
            views(all@) == mv.take(i as int).map_values(|rel: Seq<char>| path_join(package_root@, backslashed(rel), sep)),
        decreases manifest_executables.len() - i,
    {
        let ghost old = views(all@);
        let rel = to_backslashes(manifest_executables[i].as_str());
        let joined = join_path(package_root, rel.as_str(), sep);
        all.push(joined);
        assert(views(all@) =~= old.push(joined@));
        assert(mv.take(i + 1) =~= mv.take(i as int).push(mv[i as int]));
        assert(mv.take(i + 1).map_values(|rel: Seq<char>| path_join(package_root@, backslashed(rel), sep)) =~= mv.take(i as int).map_values(|rel: Seq<char>| path_join(package_root@, backslashed(rel), sep)).push(path_join(package_root@, backslashed(mv[i as int]), sep)));
        i = i + 1;
    }
    assert(mv.take(manifest_executables.len() as int) =~= mv);
    let ghost manifest_part = views(all@);
    let app = join_path(package_root, "app", sep);
    let resources = join_path(app.as_str(), "resources", sep);
    all.push(join_path(app.as_str(), "ChatGPT.exe", sep));
    all.push(join_path(app.as_str(), "Codex.exe", sep));
    all.push(join_path(resources.as_str(), "Codex.exe", sep));
    all.push(join_path(package_root, "ChatGPT.exe", sep));
    all.push(join_path(package_root, "Codex.exe", sep));
    assert(views(all@) =~= manifest_part + seq![
            path_join(path_join(package_root@, "app"@, sep), "ChatGPT.exe"@, sep),
            path_join(path_join(package_root@, "app"@, sep), "Codex.exe"@, sep),
            path_join(path_join(path_join(package_root@, "app"@, sep), "resources"@, sep), "Codex.exe"@, sep),
            path_join(package_root@, "ChatGPT.exe"@, sep),
            path_join(package_root@, "Codex.exe"@, sep),
        ]);
    dedupe_paths(all)
}


/// The regular expression that finds the `Executable="..."` attributes of an AppxManifest.
pub const APPX_EXECUTABLE_PATTERN: &'static str = r#"Executable\s*=\s*"([^"]+)""#;

/// The texts of capture group 1 of the successive matches of `pattern` in `text`
/// (`regex::Regex::captures_iter`), or `None` when the pattern does not compile.
pub uninterp spec fn regex_group_one_captures(pattern: Seq<char>, text: Seq<char>) -> Option<Seq<Seq<char>>>;

/// Trusted: compiles `pattern` with `regex::Regex::new` and collects, for each match
/// of `captures_iter(text)` in order, the text of capture group 1 where it took part.
/// The contract names that result; it claims nothing about which texts the regex matches.
#[verifier::external_body]
fn regex_first_group_captures(pattern: &str, text: &str) -> (r: Option<Vec<String>>)
    ensures
        match r {
            Some(v) => regex_group_one_captures(pattern@, text@) == Some(views(v@)),
            None => regex_group_one_captures(pattern@, text@) is None,
        },
{
    match regex::Regex::new(pattern) {
        Ok(re) => Some(
            re.captures_iter(text).filter_map(|c| c.get(1).map(|m| m.as_str().to_string())).collect(),
        ),
        Err(_) => None,
    }
}

/// A declared executable that is the Desktop shell (`Codex.exe` or `ChatGPT.exe`),
/// judged by the text after its last separator.
pub open spec fn declares_desktop_shell(value: Seq<char>) -> bool {
    let name = crate::paths::last_component(value);
    name == "Codex.exe"@ || name == "ChatGPT.exe"@
}

pub open spec fn desktop_shell_values(caps: Seq<Seq<char>>) -> Seq<Seq<char>>
    decreases caps.len(),
{
    if caps.len() == 0 {
        Seq::empty()
    } else {
        let rest = desktop_shell_values(caps.drop_last());
        if declares_desktop_shell(trim(caps.last())) {
            rest.push(trim(caps.last()))
        } else {
            rest
        }
    }
}

pub open spec fn manifest_executable_values(text: Seq<char>) -> Seq<Seq<char>> {
    match regex_group_one_captures(APPX_EXECUTABLE_PATTERN@, text) {
        Some(caps) => desktop_shell_values(caps),
        None => Seq::empty(),
    }
}

/// The Desktop shell paths an AppxManifest declares, relative to the package root;
/// the lower-case CLI `codex.exe` is not among them.
pub fn appx_manifest_codex_executable_values(text: &str) -> (r: Vec<String>)
    ensures
        views(r@) == manifest_executable_values(text@),
{
    let caps = match regex_first_group_captures(APPX_EXECUTABLE_PATTERN, text) {
        Some(caps) => caps,
        None => return Vec::new(),
    };
    let ghost cv = views(caps@);
    let mut r: Vec<String> = Vec::new();
    let mut i: usize = 0;
    while i < caps.len()
        invariant
            i <= caps.len(),
            cv == views(caps@),
            views(r@) == desktop_shell_values(cv.take(i as int)),
        decreases caps.len() - i,
    {
        assert(cv.take(i + 1).drop_last() =~= cv.take(i as int));
        let value = trim_chars(chars_of(caps[i].as_str()).as_slice());
        let name = crate::paths::last_component_chars(value.as_slice());
        let name_s = string_of(name.as_slice());
        if str_eq(name_s.as_str(), "Codex.exe") || str_eq(name_s.as_str(), "ChatGPT.exe") {
            let ghost old = views(r@);
            r.push(string_of(value.as_slice()));
            assert(views(r@) =~= old.push(trim(cv[i as int])));
        }
        i = i + 1;
    }
    assert(cv.take(caps.len() as int) =~= cv);
    r
}

// ---------------------------------------------------------------------------
// Unlocking the model picker
// ---------------------------------------------------------------------------

/// The evidence before any page reported.
pub fn no_compatibility_evidence() -> (r: CodexAppCompatibilityEvidence)
    ensures
        !r.history_sync_requested,
        r.history_catalog_complete is None,
        r.history_catalog_count is None,
{
    CodexAppCompatibilityEvidence {
        history_sync_requested: false,
        history_catalog_complete: None,
        history_catalog_count: None,
    }
}

/// Of the evidence from several pages, the last one that requested a history sync is
/// kept.
pub fn merge_compatibility_evidence(
    current: CodexAppCompatibilityEvidence,
    reported: CodexAppCompatibilityEvidence,
) -> (r: CodexAppCompatibilityEvidence)
    ensures
        r == if reported.history_sync_requested {
            reported
        } else {
            current
        },
{
    if reported.history_sync_requested {
        reported
    } else {
        current
    }
}

/// The result of installing the model picker compatibility layer.
#[derive(Debug, Clone)]
pub struct CodexModelPickerUnlockResult {
    pub attempted_ports: Vec<u16>,
    pub debug_port: Option<u16>,
    pub target_id: Option<String>,
    pub target_title: Option<String>,
    pub target_url: Option<String>,
    pub model_count: usize,
    pub model_names: Vec<String>,
    pub injected: bool,
    pub launched: bool,
    pub codex_executable: Option<String>,
    pub history_sync_requested: bool,
    pub history_catalog_complete: Option<bool>,
    pub history_catalog_count: Option<usize>,
    pub message: String,
}

/// The result when the layer was injected into `target` on `port`: the catalog's
/// models, and whether the native history catalog sync was requested.
pub fn injected_unlock_result(
    ports: &Vec<u16>,
    port: u16,
    target: &CdpTarget,
    model_names: &Vec<String>,
    codex_executable: Option<String>,
    evidence: CodexAppCompatibilityEvidence,
) -> (r: CodexModelPickerUnlockResult)
    ensures
        r.attempted_ports@ == ports@,
        r.debug_port == Some(port),
        opt_view(r.target_id) == Some(target.id@),
        opt_view(r.target_title) == Some(target.title@),
        opt_view(r.target_url) == Some(target.url@),
        r.model_count == model_names@.len(),
        views(r.model_names@) == views(model_names@),
        r.injected,
        !r.launched,
        r.codex_executable == codex_executable,
        r.history_sync_requested == evidence.history_sync_requested,
        r.history_catalog_complete == evidence.history_catalog_complete,
        r.history_catalog_count == evidence.history_catalog_count,
        r.message@ == if evidence.history_sync_requested {
            "Codex App compatibility layer was injected; the native history catalog sync was requested and model visibility was refreshed."@
        } else {
            "Codex App compatibility layer was injected, but the native localThreadCatalog service was not available in this renderer; model visibility was refreshed without rewriting history metadata."@
        },
{
    CodexModelPickerUnlockResult {
        attempted_ports: ports.clone(),
        debug_port: Some(port),
        target_id: Some(target.id.clone()),
        target_title: Some(target.title.clone()),
        target_url: Some(target.url.clone()),
        model_count: model_names.len(),
        model_names: crate::text::clone_strings(model_names),
        injected: true,
        launched: false,
        codex_executable,
        history_sync_requested: evidence.history_sync_requested,
        history_catalog_complete: evidence.history_catalog_complete,
        history_catalog_count: evidence.history_catalog_count,
        message: if evidence.history_sync_requested {
            owned("Codex App compatibility layer was injected; the native history catalog sync was requested and model visibility was refreshed.")
        } else {
            owned("Codex App compatibility layer was injected, but the native localThreadCatalog service was not available in this renderer; model visibility was refreshed without rewriting history metadata.")
        },
    }
}

fn not_injected(
    attempted_ports: Vec<u16>,
    debug_port: Option<u16>,
    model_names: &Vec<String>,
    launched: bool,
    codex_executable: String,
    message: &str,
) -> (r: CodexModelPickerUnlockResult)
    ensures
        r.attempted_ports@ == attempted_ports@,
        r.debug_port == debug_port,
        r.target_id is None && r.target_title is None && r.target_url is None,
        r.model_count == model_names@.len(),
        views(r.model_names@) == views(model_names@),
        !r.injected,
        r.launched == launched,
        opt_view(r.codex_executable) == Some(codex_executable@),
        !r.history_sync_requested,
        r.history_catalog_complete is None && r.history_catalog_count is None,
        r.message@ == message@,
{
    CodexModelPickerUnlockResult {
        attempted_ports,
        debug_port,
        target_id: None,
        target_title: None,
        target_url: None,
        model_count: model_names.len(),
        model_names: crate::text::clone_strings(model_names),
        injected: false,
        launched,
        codex_executable: Some(codex_executable),
        history_sync_requested: false,
        history_catalog_complete: None,
        history_catalog_count: None,
        message: owned(message),
    }
}

/// The result when Codex already runs without an injectable debug port.
pub fn already_running_unlock_result(
    attempted_ports: Vec<u16>,
    model_names: &Vec<String>,
    codex_executable: String,
) -> (r: CodexModelPickerUnlockResult)
    ensures
        r.attempted_ports@ == attempted_ports@,
        r.debug_port is None,
        !r.injected && !r.launched,
        opt_view(r.codex_executable) == Some(codex_executable@),
        r.model_count == model_names@.len(),
        r.message@ == "Codex App is already running without an injectable CDP port. Fully quit Codex, then launch it from CCSwitchMulti so the history catalog and model compatibility layer can be installed."@,
{
    not_injected(
        attempted_ports,
        None,
        model_names,
        false,
        codex_executable,
        "Codex App is already running without an injectable CDP port. Fully quit Codex, then launch it from CCSwitchMulti so the history catalog and model compatibility layer can be installed.",
    )
}

/// The result while a freshly launched Codex has no renderer target yet (`timed_out`
/// once the attempts are used up).
pub fn launched_unlock_result(model_names: &Vec<String>, codex_executable: String, timed_out: bool) -> (r: CodexModelPickerUnlockResult)
    ensures
        r.attempted_ports@ == seq![DEFAULT_CODEX_DEBUG_PORT],
        r.debug_port == Some(DEFAULT_CODEX_DEBUG_PORT),
        !r.injected && r.launched,
        opt_view(r.codex_executable) == Some(codex_executable@),
        r.model_count == model_names@.len(),
        r.message@ == if timed_out {
            "Codex was launched, but no injectable renderer target appeared before timeout."@
        } else {
            "Codex was launched with remote debugging; waiting for the renderer target."@
        },
{
    let mut ports: Vec<u16> = Vec::new();
    ports.push(DEFAULT_CODEX_DEBUG_PORT);
    let message = if timed_out {
        "Codex was launched, but no injectable renderer target appeared before timeout."
    } else {
        "Codex was launched with remote debugging; waiting for the renderer target."
    };
    not_injected(ports, Some(DEFAULT_CODEX_DEBUG_PORT), model_names, true, codex_executable, message)
}

/// An injection after launching Codex: the same result, marked as launched from
/// `codex_executable`.
pub fn mark_launched(result: CodexModelPickerUnlockResult, codex_executable: String) -> (r: CodexModelPickerUnlockResult)
    ensures
        r.launched,
        opt_view(r.codex_executable) == Some(codex_executable@),
        r.attempted_ports == result.attempted_ports,
        r.debug_port == result.debug_port,
        r.injected == result.injected,
        r.message == result.message,
{
    CodexModelPickerUnlockResult { launched: true, codex_executable: Some(codex_executable), ..result }
}

proof fn lemma_contains_in_lowered_haystack(title: Seq<char>, url: Seq<char>, p: Seq<char>)
    requires
        contains(lower(title), p) || contains(lower(url), p),
    ensures
        contains(lower(title + " "@ + url), p),
{
    let h = lower(title + " "@ + url);
    let lt = lower(title);
    let lu = lower(url);
    assert(h =~= lt + lower(" "@) + lu);
    if contains(lt, p) {
        let j = choose|j: int| crate::text::occurs_at(lt, p, j);
        assert(h.subrange(j, j + p.len()) =~= lt.subrange(j, j + p.len()));
        assert(crate::text::occurs_at(h, p, j));
    } else {
        let j = choose|j: int| crate::text::occurs_at(lu, p, j);
        let o = lt.len() + lower(" "@).len();
        assert(h.subrange(o + j, o + j + p.len()) =~= lu.subrange(j, j + p.len()));
        assert(crate::text::occurs_at(h, p, o + j));
    }
}

proof fn lemma_codex_page_listed(targets: Seq<CdpTarget>, i: int)
    requires
        0 <= i < targets.len(),
        is_injectable_page(targets[i]),
        names_codex(targets[i]),
    ensures
        pages(targets, true).contains(targets[i]),
    decreases targets.len(),
{
    if i < targets.len() - 1 {
        let d = targets.drop_last();
        assert(d[i] == targets[i]);
        lemma_codex_page_listed(d, i);
        let w = choose|w: int| 0 <= w < pages(d, true).len() && pages(d, true)[w] == targets[i];
        if is_injectable_page(targets.last()) && names_codex(targets.last()) {
            assert(pages(targets, true)[w] == targets[i]);
        }
    } else {
        let ps = pages(targets, true);
        assert(ps[ps.len() - 1] == targets[i]);
    }
}

/// Every injectable page whose title or URL mentions Codex, or whose URL is an
/// `app://` document (in any letter case), is among the pages picked, on any port.
pub proof fn codex_and_app_document_pages_are_picked(targets: Seq<CdpTarget>, port: u16, i: int)
    requires
        0 <= i < targets.len(),
        is_injectable_page(targets[i]),
        contains(lower(targets[i].url@), "app://"@) || contains(lower(targets[i].url@), "codex"@)
            || contains(lower(targets[i].title@), "codex"@),
    ensures
        picked_targets(targets, port) matches Some(ps) && ps.contains(targets[i]),
{
    let t = targets[i];
    if contains(lower(t.url@), "app://"@) {
        lemma_contains_in_lowered_haystack(t.title@, t.url@, "app://"@);
    } else {
        lemma_contains_in_lowered_haystack(t.title@, t.url@, "codex"@);
    }
    assert(names_codex(t));
    lemma_codex_page_listed(targets, i);
    assert(pages(targets, true).len() > 0);
}

proof fn lemma_pages_from_targets(targets: Seq<CdpTarget>, codex_only: bool)
    ensures
        forall|x: int| 0 <= x < pages(targets, codex_only).len() ==> {
            &&& targets.contains(#[trigger] pages(targets, codex_only)[x])
            &&& is_injectable_page(pages(targets, codex_only)[x])
            &&& codex_only ==> names_codex(pages(targets, codex_only)[x])
        },
    decreases targets.len(),
{
    if targets.len() > 0 {
        let d = targets.drop_last();
        lemma_pages_from_targets(d, codex_only);
        let p = pages(d, codex_only);
        let r = pages(targets, codex_only);
        assert forall|x: int| 0 <= x < r.len() implies {
            &&& targets.contains(#[trigger] r[x])
            &&& is_injectable_page(r[x])
            &&& codex_only ==> names_codex(r[x])
        } by {
            if x < p.len() {
                assert(r[x] == p[x]);
                let w = choose|w: int| 0 <= w < d.len() && d[w] == p[x];
                assert(targets[w] == p[x]);
            } else {
                assert(r[x] == targets[targets.len() - 1]);
            }
        }
    }
}

/// The pages picked are injectable pages among the targets; away from Codex's own
/// default port each of them names Codex or is an `app://` document.
pub proof fn picked_pages_are_injectable_targets(targets: Seq<CdpTarget>, port: u16)
    ensures
        picked_targets(targets, port) matches Some(ps) ==> forall|x: int| 0 <= x < ps.len() ==> {
            &&& targets.contains(#[trigger] ps[x])
            &&& is_injectable_page(ps[x])
            &&& port != DEFAULT_CODEX_DEBUG_PORT ==> names_codex(ps[x])
        },
{
    lemma_pages_from_targets(targets, true);
    lemma_pages_from_targets(targets, false);
}

} // verus!
