//! Launch-at-login: recognising the registered command, reading Windows'
//! Task Manager override, and deciding how to repair drift between the
//! persisted setting and the system registration.
use vstd::prelude::*;
use crate::text::{
    chars_of, eq_ignore_case, find_chars, is_first_occurrence, contains, lower_chars, chars_eq,
    slice_chars, string_of, trim, trim_chars, push_char,
};

verus! {

/// The application name under which the login item is registered.
pub const APP_NAME: &'static str = "CCSwitchMulti";

/// The `StartupApproved` value that marks the login item as enabled.
pub const ENABLED_MARKER: [u8; 12] = [0x02, 0x00, 0x00, 0x00, 0x00, 0x00, 0x00, 0x00, 0x00, 0x00, 0x00, 0x00];

/// `s` without any leading or trailing `c` (`str::trim_matches` on one char).
pub open spec fn strip_leading(s: Seq<char>, c: char) -> Seq<char>
    decreases s.len(),
{
    if s.len() > 0 && s[0] == c {
        strip_leading(s.drop_first(), c)
    } else {
        s
    }
}

pub open spec fn strip_trailing(s: Seq<char>, c: char) -> Seq<char>
    decreases s.len(),
{
    if s.len() > 0 && s.last() == c {
        strip_trailing(s.drop_last(), c)
    } else {
        s
    }
}

pub open spec fn trim_matches(s: Seq<char>, c: char) -> Seq<char> {
    strip_trailing(strip_leading(s, c), c)
}

/// The executable a Run registry value launches: surrounding whitespace and quotes removed.
pub open spec fn configured_executable(run_value: Seq<char>) -> Seq<char> {
    trim_matches(trim(run_value), '"')
}

/// `.app/Contents/MacOS/`, the layout of an executable inside a macOS bundle.
pub open spec fn macos_bundle_marker() -> Seq<char> {
    ".app/Contents/MacOS/"@
}

proof fn lemma_strip_leading_step(s: Seq<char>, c: char, i: int)
    requires
        0 <= i < s.len(),
        s[i] == c,
    ensures
        strip_leading(s.skip(i), c) == strip_leading(s.skip(i + 1), c),
{
    assert(s.skip(i).drop_first() =~= s.skip(i + 1));
}

proof fn lemma_strip_trailing_step(s: Seq<char>, c: char, j: int)
    requires
        0 < j <= s.len(),
        s[j - 1] == c,
    ensures
        strip_trailing(s.take(j), c) == strip_trailing(s.take(j - 1), c),
{
    assert(s.take(j).drop_last() =~= s.take(j - 1));
}

/// `str::trim_matches` with a single character.
pub fn trim_matches_chars(v: &[char], c: char) -> (r: Vec<char>)
    ensures
        r@ == trim_matches(v@, c),
{
    let mut i: usize = 0;
    assert(v@.skip(0) =~= v@);
    while i < v.len() && v[i] == c
        invariant
            i <= v.len(),
            strip_leading(v@, c) == strip_leading(v@.skip(i as int), c),
        decreases v.len() - i,
    {
        proof {
            lemma_strip_leading_step(v@, c, i as int);
        }
        i = i + 1;
    }
    let ghost t = v@.skip(i as int);
    assert(strip_leading(t, c) == t);
    let mut j: usize = v.len();
    assert(t.take(t.len() as int) =~= t);
    while j > i && v[j - 1] == c
        invariant
            i <= j <= v.len(),
            t == v@.skip(i as int),
            strip_trailing(t, c) == strip_trailing(t.take(j - i), c),
        decreases j,
    {
        proof {
            lemma_strip_trailing_step(t, c, j - i);
        }
        j = j - 1;
    }
    assert(t.take(j - i) =~= v@.subrange(i as int, j as int));
    proof {
        let u = t.take(j - i);
        if u.len() > 0 {
            assert(u.last() == v@[j - 1]);
        }
    }
    slice_chars(v, i, j)
}

/// The `.app` bundle that contains an executable, for a path like
/// `/Applications/X.app/Contents/MacOS/X`; `None` outside a bundle.
pub fn get_macos_app_bundle_path(exe_path: &str) -> (r: Option<String>)
    ensures
        r is None <==> !contains(exe_path@, macos_bundle_marker()),
        r matches Some(b) ==> exists|i: int|
            is_first_occurrence(exe_path@, macos_bundle_marker(), i) && b@ == exe_path@.take(i + 4),
{
    let v = chars_of(exe_path);
    let marker = chars_of(".app/Contents/MacOS/");
    proof {
        reveal_strlit(".app/Contents/MacOS/");
    }
    assert(marker@.len() == 20);
    let found = find_chars(v.as_slice(), marker.as_slice());
    match found {
        Some(pos) => {
            assert(is_first_occurrence(v@, marker@, pos as int));
            assert(pos + marker@.len() <= v@.len());
            assert(pos + 20 <= v@.len());
            assert(v@.len() == v.len());
            let prefix = slice_chars(v.as_slice(), 0, pos + 4);
            assert(prefix@ =~= v@.take(pos + 4));
            assert(marker@ == macos_bundle_marker());
            assert(is_first_occurrence(exe_path@, macos_bundle_marker(), pos as int));
            Some(string_of(prefix.as_slice()))
        },
        None => None,
    }
}

/// Whether a Run registry value launches this executable (case-insensitively, with
/// surrounding whitespace and quotes ignored).
pub fn run_value_matches_exe(run_value: &str, exe: &str) -> (r: bool)
    ensures
        r == eq_ignore_case(configured_executable(run_value@), exe@),
{
    let trimmed = trim_chars(chars_of(run_value).as_slice());
    let configured = trim_matches_chars(trimmed.as_slice(), '"');
    let a = lower_chars(configured.as_slice());
    let b = lower_chars(chars_of(exe).as_slice());
    chars_eq(a.as_slice(), b.as_slice())
}

/// The Run registry value written for this executable: its path in double quotes.
pub fn quoted_exe_path(exe: &str) -> (r: String)
    ensures
        r@ == seq!['"'] + exe@ + seq!['"'],
{
    let mut r = String::new();
    push_char(&mut r, '"');
    r.append(exe);
    push_char(&mut r, '"');
    assert(r@ =~= seq!['"'] + exe@ + seq!['"']);
    r
}

/// Task Manager's override: a value of at least eight bytes whose last eight bytes
/// are not all zero marks the login item as disabled; anything else is enabled.
pub open spec fn startup_approved_value_enabled(raw: Option<Seq<u8>>) -> bool {
    match raw {
        None => true,
        Some(bytes) => approved_bytes_enabled(bytes),
    }
}

pub open spec fn approved_bytes_enabled(bytes: Seq<u8>) -> bool {
    bytes.len() < 8 || forall|i: int| bytes.len() - 8 <= i < bytes.len() ==> #[trigger] bytes[i] == 0u8
}

pub open spec fn bytes_view(raw: Option<&[u8]>) -> Option<Seq<u8>> {
    match raw {
        Some(b) => Some(b@),
        None => None,
    }
}

pub fn startup_approved_enabled(raw_value: Option<&[u8]>) -> (r: bool)
    ensures
        r == startup_approved_value_enabled(bytes_view(raw_value)),
{
    match raw_value {
        None => true,
        Some(bytes) => {
            if bytes.len() < 8 {
                return true;
            }
            let mut i: usize = bytes.len() - 8;
            while i < bytes.len()
                invariant
                    bytes_view(raw_value) == Some(bytes@),
                    bytes.len() >= 8,
                    bytes.len() - 8 <= i <= bytes.len(),
                    forall|k: int| bytes.len() - 8 <= k < i ==> bytes@[k] == 0,
                decreases bytes.len() - i,
            {
                if bytes[i] != 0 {
                    assert(bytes@[i as int] != 0);
                    assert(!approved_bytes_enabled(bytes@));
                    return false;
                }
                i = i + 1;
            }
            true
        },
    }
}

/// Windows repair of drift between the desired setting and the registry:
/// register when the Run value is missing or stale, remove it when undesired,
/// and otherwise leave it, respecting an explicit Task Manager disable.
pub open spec fn windows_action(desired: bool, run_matches: bool, approved: bool) -> Option<bool> {
    if desired && !run_matches {
        Some(true)
    } else if !desired && run_matches {
        Some(false)
    } else {
        None
    }
}

pub fn reconciliation_action(
    desired: bool,
    run_matches_current_exe: bool,
    startup_approved: bool,
) -> (r: Option<bool>)
    ensures
        r == windows_action(desired, run_matches_current_exe, startup_approved),
{
    match (desired, run_matches_current_exe, startup_approved) {
        (true, false, _) => Some(true),
        (true, true, false) => None,
        (false, true, _) => Some(false),
        _ => None,
    }
}

/// Elsewhere: enable or disable exactly when the system state differs from the desired one.
pub fn auto_launch_reconciliation_action(desired: bool, actual: bool) -> (r: Option<bool>)
    ensures
        r == (if desired != actual {
            Some(desired)
        } else {
            None
        }),
{
    if desired != actual {
        Some(desired)
    } else {
        None
    }
}

/// What Windows registers for the login item: the Run value and the
/// `StartupApproved` marker.
#[derive(Debug, Clone)]
pub struct LoginItemRegistration {
    pub run_value: String,
    pub startup_approved: Vec<u8>,
}

pub open spec fn opt_str_view(o: Option<&str>) -> Option<Seq<char>> {
    match o {
        Some(s) => Some(s@),
        None => None,
    }
}

/// The login item launches `exe` and Task Manager has not disabled it.
pub open spec fn login_item_enabled(
    run_value: Option<Seq<char>>,
    exe: Seq<char>,
    startup_approved: Option<Seq<u8>>,
) -> bool {
    &&& run_value is Some
    &&& eq_ignore_case(configured_executable(run_value->0), exe)
    &&& startup_approved_value_enabled(startup_approved)
}

/// Whether launch-at-login is enabled, from the Run value and the `StartupApproved`
/// value as read from the registry (`None` where absent).
pub fn is_auto_launch_enabled(
    run_value: Option<&str>,
    exe: &str,
    startup_approved: Option<&[u8]>,
) -> (r: bool)
    ensures
        r == login_item_enabled(opt_str_view(run_value), exe@, bytes_view(startup_approved)),
{
    match run_value {
        None => false,
        Some(value) => run_value_matches_exe(value, exe) && startup_approved_enabled(
            startup_approved,
        ),
    }
}

/// The repair that brings the registry in line with the desired setting:
/// `Some(true)` to register, `Some(false)` to remove, `None` to leave it.
pub fn reconcile_auto_launch(
    desired: bool,
    run_value: Option<&str>,
    exe: &str,
    startup_approved: Option<&[u8]>,
) -> (r: Option<bool>)
    ensures
        r == windows_action(
            desired,
            run_value is Some && eq_ignore_case(configured_executable(run_value->0@), exe@),
            startup_approved_value_enabled(bytes_view(startup_approved)),
        ),
{
    let run_matches = match run_value {
        Some(value) => run_value_matches_exe(value, exe),
        None => false,
    };
    let approved = startup_approved_enabled(startup_approved);
    reconciliation_action(desired, run_matches, approved)
}

/// The registration written to enable launch-at-login for `exe`: the quoted path as
/// the Run value and the enabled marker as the `StartupApproved` value.
pub fn enable_auto_launch(exe: &str) -> (r: LoginItemRegistration)
    ensures
        r.run_value@ == seq!['"'] + exe@ + seq!['"'],
        r.startup_approved@ == ENABLED_MARKER@,
{
    let mut marker: Vec<u8> = Vec::new();
    let mut i: usize = 0;
    while i < 12
        invariant
            i <= 12,
            marker@ == ENABLED_MARKER@.take(i as int),
        decreases 12 - i,
    {
        marker.push(ENABLED_MARKER[i]);
        i = i + 1;
        assert(marker@ == ENABLED_MARKER@.take(i as int));
    }
    assert(ENABLED_MARKER@.take(12) =~= ENABLED_MARKER@);
    LoginItemRegistration { run_value: quoted_exe_path(exe), startup_approved: marker }
}

/// The login item as the registry holds it: the Run value and the `StartupApproved`
/// value, each absent when deleted.
#[derive(Debug, Clone)]
pub struct LoginItemState {
    pub run_value: Option<String>,
    pub startup_approved: Option<Vec<u8>>,
}

/// Disabling launch-at-login deletes both the Run value and the `StartupApproved`
/// value; this is the state it leaves.
pub fn disable_auto_launch() -> (r: LoginItemState)
    ensures
        r.run_value is None,
        r.startup_approved is None,
{
    LoginItemState { run_value: None, startup_approved: None }
}

// ---------------------------------------------------------------------------
// Laws
// ---------------------------------------------------------------------------

proof fn lemma_trim_of_quoted(exe: Seq<char>)
    requires
        exe.len() > 0,
        !crate::text::is_ws(exe[0]),
        !crate::text::is_ws(exe.last()),
    ensures
        trim(seq!['"'] + exe + seq!['"']) == seq!['"'] + exe + seq!['"'],
{
    let q = seq!['"'] + exe + seq!['"'];
    assert(!crate::text::is_ws(q[0]));
    assert(crate::text::trim_start(q) == q);
    assert(!crate::text::is_ws(q.last()));
    assert(crate::text::trim_end(q) == q);
}

/// The Run value written for an executable is recognised as launching it, provided the
/// path does not itself begin or end with whitespace or a quote.
pub proof fn written_run_value_matches(exe: Seq<char>)
    requires
        exe.len() > 0,
        !crate::text::is_ws(exe[0]),
        !crate::text::is_ws(exe.last()),
        exe[0] != '"',
        exe.last() != '"',
    ensures
        eq_ignore_case(configured_executable(seq!['"'] + exe + seq!['"']), exe),
{
    lemma_trim_of_quoted(exe);
    let q = seq!['"'] + exe + seq!['"'];
    assert(q.drop_first() =~= exe + seq!['"']);
    assert(strip_leading(q.drop_first(), '"') == q.drop_first());
    assert(strip_leading(q, '"') == exe + seq!['"']);
    assert((exe + seq!['"']).drop_last() =~= exe);
    assert(strip_trailing(exe, '"') == exe);
    assert(strip_trailing(exe + seq!['"'], '"') == exe);
}

/// The enabled marker written with the Run value reads back as enabled.
pub proof fn enabled_marker_reads_enabled()
    ensures
        startup_approved_value_enabled(Some(ENABLED_MARKER@)),
{
}

/// Repair is idempotent: once the system agrees with the desired state, nothing is done,
/// and a repaired state needs no further repair.
pub proof fn reconciliation_reaches_fixed_point(desired: bool, approved: bool)
    ensures
        windows_action(desired, desired, approved) is None,
        windows_action(desired, !desired, approved) == Some(desired),
{
}

/// After enabling, the registry reads as enabled and no further repair is wanted,
/// provided the path does not itself begin or end with whitespace or a quote.
pub proof fn enabled_registration_is_enabled(exe: Seq<char>)
    requires
        exe.len() > 0,
        !crate::text::is_ws(exe[0]),
        !crate::text::is_ws(exe.last()),
        exe[0] != '"',
        exe.last() != '"',
    ensures
        login_item_enabled(Some(seq!['"'] + exe + seq!['"']), exe, Some(ENABLED_MARKER@)),
        windows_action(
            true,
            eq_ignore_case(configured_executable(seq!['"'] + exe + seq!['"']), exe),
            startup_approved_value_enabled(Some(ENABLED_MARKER@)),
        ) is None,
{
    written_run_value_matches(exe);
    enabled_marker_reads_enabled();
}

/// After disabling, launch-at-login reads as disabled for any executable, and a
/// desire to keep it disabled needs no repair.
pub proof fn disabled_state_is_disabled(exe: Seq<char>)
    ensures
        !login_item_enabled(None, exe, None),
        windows_action(false, false, startup_approved_value_enabled(None)) is None,
{
}

} // verus!
