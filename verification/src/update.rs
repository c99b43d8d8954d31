//! Update checking: classifying update keys, building the remote endpoints
//! they point at, interpreting the responses, and combining the per-key
//! outcomes of one mod first-success-wins. The caller performs the requests
//! and hands back each response's status and parsed fields.

use vstd::prelude::*;
use crate::text::{find_non_ws, skip_ws_back, skip_ws, ws_char};
use crate::version::spec_is_newer;
use crate::{AppSettings, ModError, UpdateInfo};

verus! {

/// A non-error response status.
pub open spec fn is_success(status: u16) -> bool {
    200 <= status < 300
}

/// What an update result holds, field by field.
pub open spec fn update_info_is(
    u: UpdateInfo,
    cur: Seq<char>,
    lat: Seq<char>,
    avail: bool,
    url: Option<Seq<char>>,
) -> bool {
    &&& u.current_version@ == cur
    &&& u.latest_version@ == lat
    &&& u.update_available == avail
    &&& match url {
        Some(x) => u.download_url matches Some(d) && d@ == x,
        None => u.download_url is None,
    }
}

/// Two update results with equal contents.
pub open spec fn same_update_info(a: UpdateInfo, b: UpdateInfo) -> bool {
    update_info_is(
        a,
        b.current_version@,
        b.latest_version@,
        b.update_available,
        match b.download_url {
            Some(u) => Some(u@),
            None => None,
        },
    )
}

impl UpdateInfo {
    /// A copy with the same contents.
    pub fn duplicate(&self) -> (r: UpdateInfo)
        ensures
            same_update_info(r, *self),
    {
        UpdateInfo {
            current_version: self.current_version.clone(),
            latest_version: self.latest_version.clone(),
            update_available: self.update_available,
            download_url: match &self.download_url {
                Some(u) => Some(u.clone()),
                None => None,
            },
        }
    }
}

/// The input with leading and trailing whitespace removed.
pub open spec fn trim_of(s: Seq<char>) -> Seq<char> {
    let a = find_non_ws(s, 0);
    let b = skip_ws_back(s, s.len() as int);
    if a <= b {
        s.subrange(a, b)
    } else {
        Seq::empty()
    }
}

/// Executable counterpart of `trim_of`.
pub fn trim_str(s: &str) -> (r: String)
    ensures
        r@ == trim_of(s@),
{
    let len = s.unicode_len();
    let a = skip_ws(s, 0);
    let mut b = len;
    while b > 0 && ws_char(s.get_char(b - 1))
        invariant
            0 <= b <= len,
            len == s@.len(),
            skip_ws_back(s@, len as int) == skip_ws_back(s@, b as int),
        decreases b,
    {
        b = b - 1;
    }
    if a <= b {
        String::from_str(s.substring_char(a, b))
    } else {
        let r = String::new();
        assert(r@ =~= trim_of(s@));
        r
    }
}

/// Whether the string holds no non-whitespace character.
pub open spec fn is_blank(s: Seq<char>) -> bool {
    find_non_ws(s, 0) == s.len()
}

/// Whether a usable access credential is configured.
pub open spec fn spec_has_api_key(s: AppSettings) -> bool {
    s.nexus_api_key matches Some(k) && !is_blank(k@)
}

/// Executable counterpart of `spec_has_api_key`: a credential is usable when
/// it is present and not blank.
pub fn has_api_key(settings: &AppSettings) -> (r: bool)
    ensures
        r == spec_has_api_key(*settings),
{
    match &settings.nexus_api_key {
        Some(k) => {
            let ks = k.as_str();
            let a = skip_ws(ks, 0);
            a < ks.unicode_len()
        },
        None => false,
    }
}

/// The host-registry prefix, matched on the first six characters, letters
/// case-insensitively.
pub open spec fn nexus_prefixed(k: Seq<char>) -> bool {
    &&& k.len() >= 6
    &&& (k[0] == 'n' || k[0] == 'N')
    &&& (k[1] == 'e' || k[1] == 'E')
    &&& (k[2] == 'x' || k[2] == 'X')
    &&& (k[3] == 'u' || k[3] == 'U')
    &&& (k[4] == 's' || k[4] == 'S')
    &&& k[5] == ':'
}

/// The release-repository prefix, matched on the first seven characters,
/// letters case-insensitively.
pub open spec fn github_prefixed(k: Seq<char>) -> bool {
    &&& k.len() >= 7
    &&& (k[0] == 'g' || k[0] == 'G')
    &&& (k[1] == 'i' || k[1] == 'I')
    &&& (k[2] == 't' || k[2] == 'T')
    &&& (k[3] == 'h' || k[3] == 'H')
    &&& (k[4] == 'u' || k[4] == 'U')
    &&& (k[5] == 'b' || k[5] == 'B')
    &&& k[6] == ':'
}

/// The trimmed identifier after a recognized prefix of `plen` characters.
pub open spec fn key_ident(k: Seq<char>, plen: int) -> Seq<char> {
    trim_of(k.subrange(plen, k.len() as int))
}

/// An update key, classified by its prefix.
pub enum UpdateKey {
    /// A host-registry identifier.
    Nexus(String),
    /// A release-repository "owner/repo" identifier.
    Github(String),
    /// An unrecognized prefix: checking this key fails.
    Unsupported,
}

/// Classifies one update key by its prefix and extracts its trimmed
/// identifier.
pub fn classify_update_key(key: &str) -> (r: UpdateKey)
    ensures
        nexus_prefixed(key@) ==> (r matches UpdateKey::Nexus(id) && id@ == key_ident(key@, 6)),
        !nexus_prefixed(key@) && github_prefixed(key@) ==> (r matches UpdateKey::Github(repo)
            && repo@ == key_ident(key@, 7)),
        !nexus_prefixed(key@) && !github_prefixed(key@) ==> r is Unsupported,
{
    let len = key.unicode_len();
    if len >= 6 {
        let c0 = key.get_char(0);
        let c1 = key.get_char(1);
        let c2 = key.get_char(2);
        let c3 = key.get_char(3);
        let c4 = key.get_char(4);
        let c5 = key.get_char(5);
        if (c0 == 'n' || c0 == 'N') && (c1 == 'e' || c1 == 'E') && (c2 == 'x' || c2 == 'X') && (c3
            == 'u' || c3 == 'U') && (c4 == 's' || c4 == 'S') && c5 == ':' {
            return UpdateKey::Nexus(trim_str(key.substring_char(6, len)));
        }
    }
    if len >= 7 {
        let c0 = key.get_char(0);
        let c1 = key.get_char(1);
        let c2 = key.get_char(2);
        let c3 = key.get_char(3);
        let c4 = key.get_char(4);
        let c5 = key.get_char(5);
        let c6 = key.get_char(6);
        if (c0 == 'g' || c0 == 'G') && (c1 == 'i' || c1 == 'I') && (c2 == 't' || c2 == 'T') && (c3
            == 'h' || c3 == 'H') && (c4 == 'u' || c4 == 'U') && (c5 == 'b' || c5 == 'B') && c6
            == ':' {
            return UpdateKey::Github(trim_str(key.substring_char(7, len)));
        }
    }
    UpdateKey::Unsupported
}

pub open spec fn nexus_page_url_of(id: Seq<char>) -> Seq<char> {
    "https://www.nexusmods.com/stardewvalley/mods/"@ + id
}

pub open spec fn nexus_api_url_of(id: Seq<char>) -> Seq<char> {
    "https://api.nexusmods.com/v1/games/stardewvalley/mods/"@ + id
}

pub open spec fn github_api_url_of(repo: Seq<char>) -> Seq<char> {
    "https://api.github.com/repos/"@ + repo + "/releases/latest"@
}

/// The mod's public listing page on the host registry.
pub fn nexus_page_url(mod_id: &str) -> (r: String)
    ensures
        r@ == nexus_page_url_of(mod_id@),
{
    String::from_str("https://www.nexusmods.com/stardewvalley/mods/").concat(mod_id)
}

/// The host registry's metadata endpoint for one mod.
pub fn nexus_api_url(mod_id: &str) -> (r: String)
    ensures
        r@ == nexus_api_url_of(mod_id@),
{
    String::from_str("https://api.nexusmods.com/v1/games/stardewvalley/mods/").concat(mod_id)
}

/// The release repository's latest-release endpoint.
pub fn github_api_url(repo: &str) -> (r: String)
    ensures
        r@ == github_api_url_of(repo@),
{
    String::from_str("https://api.github.com/repos/").concat(repo).concat("/releases/latest")
}

/// The deterministic result when no credential is configured: no remote call
/// is made, the latest version is the manual-check sentinel, and the
/// download target is the public listing page.
pub fn nexus_manual_check(mod_id: &str, current_version: &str) -> (r: UpdateInfo)
    ensures
        update_info_is(
            r,
            current_version@,
            "Manual check"@,
            false,
            Some(nexus_page_url_of(mod_id@)),
        ),
{
    UpdateInfo {
        current_version: String::from_str(current_version),
        latest_version: String::from_str("Manual check"),
        update_available: false,
        download_url: Some(nexus_page_url(mod_id)),
    }
}

/// Interprets the host registry's response for one mod: an invalid
/// credential, a missing mod and any other non-success status are errors; a
/// success with no readable version field is a parse error; otherwise the
/// returned version is compared with the current one and the download target
/// is the public listing page.
pub fn nexus_result_from_response(
    mod_id: &str,
    current_version: &str,
    status: u16,
    body_version: &Option<String>,
) -> (r: Result<UpdateInfo, ModError>)
    ensures
        status == 401 ==> (r matches Err(e) && e == ModError::InvalidCredential),
        status == 404 ==> (r matches Err(e) && e == ModError::NotFound),
        status != 401 && status != 404 && !is_success(status) ==> (r matches Err(e) && e
            == ModError::RemoteError),
        is_success(status) && body_version is None ==> (r matches Err(e) && e
            == ModError::ParseError),
        is_success(status) ==> (body_version matches Some(v) ==> (r matches Ok(u) && update_info_is(
            u,
            current_version@,
            v@,
            spec_is_newer(current_version@, v@),
            Some(nexus_page_url_of(mod_id@)),
        ))),
{
    if !(200 <= status && status < 300) {
        if status == 401 {
            return Err(ModError::InvalidCredential);
        } else if status == 404 {
            return Err(ModError::NotFound);
        } else {
            return Err(ModError::RemoteError);
        }
    }
    match body_version {
        None => Err(ModError::ParseError),
        Some(v) => {
            let available = crate::version::version_compare(current_version, v.as_str());
            Ok(
                UpdateInfo {
                    current_version: String::from_str(current_version),
                    latest_version: v.clone(),
                    update_available: available,
                    download_url: Some(nexus_page_url(mod_id)),
                },
            )
        },
    }
}

/// A release tag with one leading version-prefix character removed.
pub open spec fn strip_v(s: Seq<char>) -> Seq<char> {
    if s.len() > 0 && s[0] == 'v' {
        s.drop_first()
    } else {
        s
    }
}

/// Interprets the release repository's response: any non-success status is a
/// remote error, a success whose tag or page URL cannot be read is a parse
/// error; otherwise the tag, with one leading version-prefix character
/// stripped, is compared with the current version and the download target is
/// the release's page.
pub fn github_result_from_response(
    current_version: &str,
    status: u16,
    tag_name: &Option<String>,
    html_url: &Option<String>,
) -> (r: Result<UpdateInfo, ModError>)
    ensures
        !is_success(status) ==> (r matches Err(e) && e == ModError::RemoteError),
        is_success(status) && (tag_name is None || html_url is None) ==> (r matches Err(e) && e
            == ModError::ParseError),
        is_success(status) ==> (tag_name matches Some(t) ==> (html_url matches Some(h) ==> (r
            matches Ok(u) && update_info_is(
            u,
            current_version@,
            strip_v(t@),
            spec_is_newer(current_version@, strip_v(t@)),
            Some(h@),
        )))),
{
    if !(200 <= status && status < 300) {
        return Err(ModError::RemoteError);
    }
    match (tag_name, html_url) {
        (Some(t), Some(h)) => {
            let ts = t.as_str();
            let tlen = ts.unicode_len();
            let latest = if tlen > 0 && ts.get_char(0) == 'v' {
                let sub = ts.substring_char(1, tlen);
                proof {
                    assert(sub@ =~= strip_v(t@));
                }
                String::from_str(sub)
            } else {
                t.clone()
            };
            let available = crate::version::version_compare(current_version, latest.as_str());
            Ok(
                UpdateInfo {
                    current_version: String::from_str(current_version),
                    latest_version: latest,
                    update_available: available,
                    download_url: Some(h.clone()),
                },
            )
        },
        _ => Err(ModError::ParseError),
    }
}

/// What one update key asks the caller to do.
pub enum KeyPlan {
    /// Query the host registry's metadata endpoint with the credential and
    /// interpret the response with `nexus_result_from_response`.
    QueryNexus { mod_id: String, api_url: String, api_key: String },
    /// No remote call is wanted: this is the key's outcome as it stands.
    Ready(UpdateInfo),
    /// Query the release repository's latest-release endpoint and interpret
    /// the response with `github_result_from_response`.
    QueryGithub { api_url: String },
    /// This key's lookup fails outright.
    Fail(ModError),
}

/// Decides what one update key requires: a host-registry key with a
/// configured credential queries the registry; one without a credential
/// resolves at once to the manual-check result; a release-repository key
/// queries the repository; an unrecognized prefix fails with an unsupported
/// key format.
pub fn plan_update_key(key: &str, current_version: &str, settings: &AppSettings) -> (r: KeyPlan)
    ensures
        nexus_prefixed(key@) && spec_has_api_key(*settings) ==> (r matches KeyPlan::QueryNexus {
            mod_id,
            api_url,
            api_key,
        } && mod_id@ == key_ident(key@, 6) && api_url@ == nexus_api_url_of(key_ident(key@, 6)) && (
        settings.nexus_api_key matches Some(k) && api_key@ == k@)),
        nexus_prefixed(key@) && !spec_has_api_key(*settings) ==> (r matches KeyPlan::Ready(u)
            && update_info_is(
            u,
            current_version@,
            "Manual check"@,
            false,
            Some(nexus_page_url_of(key_ident(key@, 6))),
        )),
        !nexus_prefixed(key@) && github_prefixed(key@) ==> (r matches KeyPlan::QueryGithub {
            api_url,
        } && api_url@ == github_api_url_of(key_ident(key@, 7))),
        !nexus_prefixed(key@) && !github_prefixed(key@) ==> (r matches KeyPlan::Fail(e) && e
            == ModError::UnsupportedKeyFormat),
{
    match classify_update_key(key) {
        UpdateKey::Nexus(id) => {
            if has_api_key(settings) {
                let api_key = settings.nexus_api_key.as_ref().unwrap().clone();
                let api_url = nexus_api_url(id.as_str());
                KeyPlan::QueryNexus { mod_id: id, api_url, api_key }
            } else {
                KeyPlan::Ready(nexus_manual_check(id.as_str(), current_version))
            }
        },
        UpdateKey::Github(repo) => {
            KeyPlan::QueryGithub { api_url: github_api_url(repo.as_str()) }
        },
        UpdateKey::Unsupported => KeyPlan::Fail(ModError::UnsupportedKeyFormat),
    }
}

/// Index of the first successful outcome, or the outcome count.
pub open spec fn first_ok_index(os: Seq<Result<UpdateInfo, ModError>>, i: int) -> int
    decreases os.len() - i,
{
    if i < 0 {
        first_ok_index(os, 0)
    } else if i >= os.len() {
        os.len() as int
    } else if os[i] is Ok {
        i
    } else {
        first_ok_index(os, i + 1)
    }
}

/// Combines the per-key outcomes of one mod, first success wins: the first
/// successful lookup is the mod's result and later keys are ignored; if
/// every key failed, the result reports no update with the latest version
/// equal to the current one and no download target.
pub fn resolve_update_check(
    current_version: &str,
    outcomes: &Vec<Result<UpdateInfo, ModError>>,
) -> (r: UpdateInfo)
    ensures
        ({
            let w = first_ok_index(outcomes@, 0);
            if w < outcomes@.len() {
                outcomes@[w] matches Ok(u) && same_update_info(r, u)
            } else {
                update_info_is(r, current_version@, current_version@, false, None::<Seq<char>>)
            }
        }),
{
    let mut i: usize = 0;
    while i < outcomes.len()
        invariant
            0 <= i <= outcomes@.len(),
            first_ok_index(outcomes@, 0) == first_ok_index(outcomes@, i as int),
        decreases outcomes@.len() - i,
    {
        match &outcomes[i] {
            Ok(u) => {
                return u.duplicate();
            },
            Err(_) => {
                i = i + 1;
            },
        }
    }
    UpdateInfo {
        current_version: String::from_str(current_version),
        latest_version: String::from_str(current_version),
        update_available: false,
        download_url: None,
    }
}

/// When every key's lookup fails, no outcome is successful, so the combined
/// result falls back to "no update available, latest equals current".
pub proof fn lemma_all_failures_leave_no_update(os: Seq<Result<UpdateInfo, ModError>>)
    requires
        forall|i: int| 0 <= i < os.len() ==> os[i] is Err,
    ensures
        first_ok_index(os, 0) == os.len(),
{
    lemma_no_ok_from(os, 0);
}

proof fn lemma_no_ok_from(os: Seq<Result<UpdateInfo, ModError>>, i: int)
    requires
        0 <= i <= os.len(),
        forall|j: int| 0 <= j < os.len() ==> os[j] is Err,
    ensures
        first_ok_index(os, i) == os.len(),
    decreases os.len() - i,
{
    if i < os.len() {
        lemma_no_ok_from(os, i + 1);
    }
}

/// Whether a mod takes part in a batch update check at all.
pub fn needs_update_check(m: &crate::ModInfo) -> (r: bool)
    ensures
        r == (m.update_keys@.len() > 0),
{
    m.update_keys.len() > 0
}

} // verus!
