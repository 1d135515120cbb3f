//! Game install management: API endpoints, manifest assembly from raw
//! launcher replies, version comparison, and executable-name policy.
//! The HTTP and file-system work stays in the unverified shell.

use vstd::prelude::*;

use crate::task::opt_str_eq;
use crate::text::{parse_u64_spec, str_eq};

verus! {

/// One game's install state as shown to the caller.
#[derive(Debug)]
pub struct GameInfo {
    pub id: String,
    pub install_path: Option<String>,
    pub version: Option<String>,
    pub latest_version: Option<String>,
    pub update_available: bool,
}

/// One downloadable archive of a game install.
#[derive(Debug)]
pub struct GamePack {
    pub url: String,
    pub md5: String,
    pub size: u64,
    /// File name derived from the URL.
    pub filename: String,
}

/// The launcher API's install (or patch) manifest, normalized.
#[derive(Debug)]
pub struct GameManifest {
    pub game_id: String,
    pub version: String,
    pub packs: Vec<GamePack>,
    pub total_size: u64,
    pub game_files_md5: String,
    pub file_path: String,
}

/// One raw pack entry as the launcher API reports it.
#[derive(Debug)]
pub struct RawPack {
    pub url: String,
    pub md5: String,
    pub package_size: String,
}

/// Per-game parameters of the launcher API.
#[derive(Debug)]
pub struct GameApiConfig {
    pub appcode: &'static str,
    pub channel: u32,
    pub sub_channel: u32,
}

/// The launcher API parameters of a supported game, if any.
pub fn game_api_config(game_id: &str) -> (r: Option<GameApiConfig>)
    ensures
        match r {
            Option::Some(cfg) => ((game_id@ == "arknights"@ && cfg.appcode@
                == "GzD1CpaWgmSq1wew"@) || (game_id@ == "endfield"@ && cfg.appcode@
                == "6LL0KJuqHBVz33WK"@)) && cfg.channel == 1 && cfg.sub_channel == 1,
            Option::None => game_id@ != "arknights"@ && game_id@ != "endfield"@,
        },
{
    if str_eq(game_id, "arknights") {
        Option::Some(GameApiConfig { appcode: "GzD1CpaWgmSq1wew", channel: 1, sub_channel: 1 })
    } else if str_eq(game_id, "endfield") {
        Option::Some(GameApiConfig { appcode: "6LL0KJuqHBVz33WK", channel: 1, sub_channel: 1 })
    } else {
        Option::None
    }
}

/// The version-configuration endpoint of a supported game, if any.
pub fn version_config_url(game_id: &str) -> (r: Option<&'static str>)
    ensures
        match r {
            Option::Some(u) => (game_id@ == "arknights"@ && u@
                == "https://ak-conf.hypergryph.com/config/prod/official/Windows/version"@) || (
            game_id@ == "endfield"@ && u@
                == "https://beyond-conf.hypergryph.com/config/prod/official/Windows/version"@),
            Option::None => game_id@ != "arknights"@ && game_id@ != "endfield"@,
        },
{
    if str_eq(game_id, "arknights") {
        Option::Some("https://ak-conf.hypergryph.com/config/prod/official/Windows/version")
    } else if str_eq(game_id, "endfield") {
        Option::Some("https://beyond-conf.hypergryph.com/config/prod/official/Windows/version")
    } else {
        Option::None
    }
}

/// The hot-update cache directories of a supported game, if any.
pub fn cache_dir_names(game_id: &str) -> (r: Option<Vec<&'static str>>)
    ensures
        match r {
            Option::Some(dirs) => (game_id@ == "arknights"@ || game_id@ == "endfield"@)
                && dirs@.len() == 1 && dirs@[0]@ == "HotUpdate"@,
            Option::None => game_id@ != "arknights"@ && game_id@ != "endfield"@,
        },
{
    if str_eq(game_id, "arknights") || str_eq(game_id, "endfield") {
        let mut v: Vec<&'static str> = Vec::new();
        v.push("HotUpdate");
        Option::Some(v)
    } else {
        Option::None
    }
}

/// Known executable names to try first when locating a game, per game.
pub fn known_exe_names(game_id: &str) -> (r: Vec<&'static str>)
    ensures
        game_id@ == "arknights"@ ==> r@.len() == 2 && r@[0]@ == "Arknights.exe"@ && r@[1]@
            == "明日方舟.exe"@,
        game_id@ == "endfield"@ ==> r@.len() == 3 && r@[0]@ == "ArknightsEndfield.exe"@ && r@[1]@
            == "EndField.exe"@ && r@[2]@ == "Endfield.exe"@,
        game_id@ != "arknights"@ && game_id@ != "endfield"@ ==> r@.len() == 0,
{
    proof {
        reveal_strlit("arknights");
        reveal_strlit("endfield");
    }
    let mut v: Vec<&'static str> = Vec::new();
    if str_eq(game_id, "arknights") {
        v.push("Arknights.exe");
        v.push("明日方舟.exe");
        proof {
            // The two game ids have different lengths, so only one
            // per-game clause can apply.
            assert("arknights"@.len() == 9);
            assert("endfield"@.len() == 8);
            assert(v@[0]@ == "Arknights.exe"@ && v@[1]@ == "明日方舟.exe"@);
        }
    } else if str_eq(game_id, "endfield") {
        v.push("ArknightsEndfield.exe");
        v.push("EndField.exe");
        v.push("Endfield.exe");
        proof {
            assert(v@[0]@ == "ArknightsEndfield.exe"@ && v@[1]@ == "EndField.exe"@ && v@[2]@
                == "Endfield.exe"@);
        }
    }
    v
}

/// Helper and installer executables that auto-detection skips, matched
/// against the lowercased file name.
pub fn is_excluded_exe(lower_name: &str) -> (r: bool)
    ensures
        r == (lower_name@ == "unitycrashandler64.exe"@ || lower_name@
            == "unitycrashandler32.exe"@ || lower_name@ == "crashreportclient.exe"@ || lower_name@
            == "uninstall.exe"@ || lower_name@ == "uninstallgame.exe"@ || lower_name@
            == "uninst.exe"@ || lower_name@ == "setup.exe"@ || lower_name@ == "vcredist_x64.exe"@
            || lower_name@ == "vcredist_x86.exe"@),
{
    str_eq(lower_name, "unitycrashandler64.exe") || str_eq(lower_name, "unitycrashandler32.exe")
        || str_eq(lower_name, "crashreportclient.exe") || str_eq(lower_name, "uninstall.exe")
        || str_eq(lower_name, "uninstallgame.exe") || str_eq(lower_name, "uninst.exe") || str_eq(
        lower_name,
        "setup.exe",
    ) || str_eq(lower_name, "vcredist_x64.exe") || str_eq(lower_name, "vcredist_x86.exe")
}

/// Whether a lowercased file name carries the `.exe` suffix.
pub fn has_exe_suffix(lower_name: &str) -> (r: bool)
    ensures
        r == (lower_name@.len() >= 4 && lower_name@.subrange(
            lower_name@.len() - 4,
            lower_name@.len() as int,
        ) == ".exe"@),
{
    let n = lower_name.unicode_len();
    if n < 4 {
        return false;
    }
    let tail = lower_name.substring_char(n - 4, n);
    str_eq(tail, ".exe")
}

/// The text after the last slash: a URL's file-name component.
pub open spec fn after_last_slash(s: Seq<char>) -> Seq<char>
    decreases s.len(),
{
    if s.len() == 0 {
        s
    } else if s.last() == '/' {
        Seq::empty()
    } else {
        after_last_slash(s.drop_last()).push(s.last())
    }
}

/// The text before the first question mark: a name with its query
/// string stripped.
pub open spec fn before_first_query(s: Seq<char>) -> Seq<char>
    decreases s.len(),
{
    if s.len() == 0 {
        s
    } else if s.first() == '?' {
        Seq::empty()
    } else {
        seq![s.first()] + before_first_query(s.drop_first())
    }
}

proof fn lemma_before_first_query(s: Seq<char>, i: int)
    requires
        0 <= i <= s.len(),
        forall|j: int| 0 <= j < i ==> s[j] != '?',
        i < s.len() ==> s[i] == '?',
    ensures
        before_first_query(s) == s.subrange(0, i),
    decreases i,
{
    if s.len() == 0 {
        assert(s.subrange(0, i) =~= s);
    } else if i == 0 {
        if s.first() == '?' {
            assert(s.subrange(0, 0) =~= Seq::<char>::empty());
        } else {
            assert(i < s.len() ==> s[i] == '?');
            assert(s[0] != '?');
            assert(i == s.len() || s[i] == '?');
            assert(false);
        }
    } else {
        assert(s.first() != '?');
        let t = s.drop_first();
        assert forall|j: int| 0 <= j < i - 1 implies t[j] != '?' by {
            assert(t[j] == s[j + 1]);
        }
        if i - 1 < t.len() {
            assert(t[i - 1] == s[i as int]);
        }
        lemma_before_first_query(t, i - 1);
        assert(seq![s.first()] + t.subrange(0, i - 1) =~= s.subrange(0, i));
    }
}

/// A pack's file name: the URL's last path component with any query
/// string stripped.
pub open spec fn pack_filename_view(url: Seq<char>) -> Seq<char> {
    before_first_query(after_last_slash(url))
}

/// Derive a pack's file name from its URL.
pub fn pack_filename(url: &str) -> (r: String)
    ensures
        r@ == pack_filename_view(url@),
{
    let n = url.unicode_len();
    let mut name = String::new();
    let mut i: usize = 0;
    while i < n
        invariant
            n == url@.len(),
            i <= n,
            name@ == after_last_slash(url@.subrange(0, i as int)),
        decreases n - i,
    {
        proof {
            assert(url@.subrange(0, i + 1).drop_last() =~= url@.subrange(0, i as int));
            assert(url@.subrange(0, i + 1).last() == url@[i as int]);
        }
        if url.get_char(i) == '/' {
            name = String::new();
        } else {
            name.append(url.substring_char(i, i + 1));
            proof {
                assert(url@.subrange(i as int, i + 1) =~= seq![url@[i as int]]);
            }
        }
        i = i + 1;
    }
    proof {
        assert(url@.subrange(0, n as int) =~= url@);
    }
    let m = name.unicode_len();
    let mut out = String::new();
    let mut k: usize = 0;
    let mut done = false;
    let ghost nv = name@;
    while k < m
        invariant
            nv == name@,
            m == name@.len(),
            k <= m,
            !done ==> out@ == nv.subrange(0, k as int) && forall|j: int|
                0 <= j < k ==> nv[j] != '?',
            done ==> out@ == before_first_query(nv),
        decreases m - k,
    {
        if !done {
            if name.as_str().get_char(k) == '?' {
                proof {
                    lemma_before_first_query(nv, k as int);
                }
                done = true;
            } else {
                out.append(name.as_str().substring_char(k, k + 1));
                proof {
                    assert(nv.subrange(k as int, k + 1) =~= seq![nv[k as int]]);
                    assert(out@ =~= nv.subrange(0, k + 1));
                }
            }
        }
        k = k + 1;
    }
    proof {
        if !done {
            lemma_before_first_query(nv, m as int);
            assert(nv.subrange(0, m as int) =~= nv);
        }
    }
    out
}

/// The size a pack entry reports, or 0 when it does not parse.
pub open spec fn pack_size_view(package_size: Seq<char>) -> u64 {
    match parse_u64_spec(package_size) {
        Option::Some(v) => v,
        Option::None => 0,
    }
}

/// Normalize one raw pack entry.
pub fn make_game_pack(pack: RawPack) -> (p: GamePack)
    ensures
        p.url@ == pack.url@,
        p.md5@ == pack.md5@,
        p.size == pack_size_view(pack.package_size@),
        p.filename@ == pack_filename_view(pack.url@),
{
    let filename = pack_filename(pack.url.as_str());
    let size: u64 = match crate::text::parse_u64(pack.package_size.as_str()) {
        Option::Some(v) => v,
        Option::None => 0,
    };
    GamePack { url: pack.url, md5: pack.md5, size, filename }
}

/// Sum of the normalized pack sizes.
pub open spec fn pack_sizes_sum(packs: Seq<GamePack>) -> int
    decreases packs.len(),
{
    if packs.len() == 0 {
        0
    } else {
        pack_sizes_sum(packs.drop_last()) + packs.last().size
    }
}

proof fn lemma_pack_sizes_nonneg(packs: Seq<GamePack>)
    ensures
        pack_sizes_sum(packs) >= 0,
    decreases packs.len(),
{
    if packs.len() > 0 {
        lemma_pack_sizes_nonneg(packs.drop_last());
    }
}

/// Assemble a normalized manifest from a raw launcher reply: packs get
/// their file names and parsed sizes; the total size is the reply's
/// figure when it parses, else the saturating sum of the pack sizes;
/// missing digest and file-path fields become empty.
pub fn build_manifest(
    game_id: &str,
    version: String,
    raw_packs: Vec<RawPack>,
    total_size: Option<String>,
    game_files_md5: Option<String>,
    file_path: Option<String>,
) -> (m: GameManifest)
    ensures
        m.game_id@ == game_id@,
        m.version@ == version@,
        m.packs@.len() == raw_packs@.len(),
        forall|i: int|
            0 <= i < raw_packs@.len() ==> {
                let p = #[trigger] m.packs@[i];
                &&& p.url@ == raw_packs@[i].url@
                &&& p.md5@ == raw_packs@[i].md5@
                &&& p.size == pack_size_view(raw_packs@[i].package_size@)
                &&& p.filename@ == pack_filename_view(raw_packs@[i].url@)
            },
        m.total_size == (match total_size {
            Option::Some(t) => match parse_u64_spec(t@) {
                Option::Some(v) => v as int,
                Option::None => if pack_sizes_sum(m.packs@) <= u64::MAX {
                    pack_sizes_sum(m.packs@)
                } else {
                    u64::MAX as int
                },
            },
            Option::None => if pack_sizes_sum(m.packs@) <= u64::MAX {
                pack_sizes_sum(m.packs@)
            } else {
                u64::MAX as int
            },
        }),
        m.game_files_md5@ == (match game_files_md5 {
            Option::Some(s) => s@,
            Option::None => Seq::<char>::empty(),
        }),
        m.file_path@ == (match file_path {
            Option::Some(s) => s@,
            Option::None => Seq::<char>::empty(),
        }),
{
    let mut raw_packs = raw_packs;
    let ghost raw = raw_packs@;
    let mut rest: Vec<RawPack> = Vec::new();
    loop
        invariant
            rest@.len() + raw_packs@.len() == raw.len(),
            raw_packs@ == raw.subrange(0, raw_packs@.len() as int),
            forall|j: int| 0 <= j < rest@.len() ==> rest@[j] == raw[raw.len() - 1 - j],
        ensures
            raw_packs@.len() == 0,
            rest@.len() == raw.len(),
            forall|j: int| 0 <= j < rest@.len() ==> rest@[j] == raw[raw.len() - 1 - j],
        decreases raw_packs@.len(),
    {
        match raw_packs.pop() {
            Option::Some(p) => {
                proof {
                    assert(raw_packs@ =~= raw.subrange(0, raw_packs@.len() as int));
                }
                rest.push(p);
            },
            Option::None => {
                break ;
            },
        }
    }
    let mut packs: Vec<GamePack> = Vec::new();
    let mut sum: u64 = 0;
    loop
        invariant
            packs@.len() + rest@.len() == raw.len(),
            forall|j: int| 0 <= j < rest@.len() ==> rest@[j] == raw[raw.len() - 1 - j],
            forall|i: int|
                0 <= i < packs@.len() ==> {
                    let p = #[trigger] packs@[i];
                    &&& p.url@ == raw[i].url@
                    &&& p.md5@ == raw[i].md5@
                    &&& p.size == pack_size_view(raw[i].package_size@)
                    &&& p.filename@ == pack_filename_view(raw[i].url@)
                },
            sum == if pack_sizes_sum(packs@) <= u64::MAX {
                pack_sizes_sum(packs@)
            } else {
                u64::MAX as int
            },
        ensures
            rest@.len() == 0,
            packs@.len() == raw.len(),
            forall|i: int|
                0 <= i < packs@.len() ==> {
                    let p = #[trigger] packs@[i];
                    &&& p.url@ == raw[i].url@
                    &&& p.md5@ == raw[i].md5@
                    &&& p.size == pack_size_view(raw[i].package_size@)
                    &&& p.filename@ == pack_filename_view(raw[i].url@)
                },
            sum == if pack_sizes_sum(packs@) <= u64::MAX {
                pack_sizes_sum(packs@)
            } else {
                u64::MAX as int
            },
        decreases rest@.len(),
    {
        match rest.pop() {
            Option::Some(rp) => {
                let ghost rp_g = rp;
                let ghost before = packs@;
                let p = make_game_pack(rp);
                proof {
                    assert(rp_g == raw[packs@.len() as int]);
                    lemma_pack_sizes_nonneg(before);
                }
                sum = sum.saturating_add(p.size);
                packs.push(p);
                proof {
                    assert(packs@.drop_last() =~= before);
                    assert(pack_sizes_sum(packs@) == pack_sizes_sum(before)
                        + packs@.last().size);
                }
            },
            Option::None => {
                break ;
            },
        }
    }
    let total: u64 = match &total_size {
        Option::Some(t) => match crate::text::parse_u64(t.as_str()) {
            Option::Some(v) => v,
            Option::None => sum,
        },
        Option::None => sum,
    };
    let gfm: String = match game_files_md5 {
        Option::Some(s) => s,
        Option::None => String::new(),
    };
    let fp: String = match file_path {
        Option::Some(s) => s,
        Option::None => String::new(),
    };
    GameManifest {
        game_id: game_id.to_owned(),
        version,
        packs,
        total_size: total,
        game_files_md5: gfm,
        file_path: fp,
    }
}

/// The result of comparing installed and latest versions.
#[derive(Debug)]
pub struct CheckUpdateResult {
    pub local_version: Option<String>,
    pub latest_version: Option<String>,
    pub update_available: bool,
}

/// An update is available exactly when both versions are known and
/// differ.
pub fn check_update(local: Option<String>, latest: Option<String>) -> (r: CheckUpdateResult)
    ensures
        opt_str_eq(r.local_version, local),
        opt_str_eq(r.latest_version, latest),
        r.update_available == (match (local, latest) {
            (Option::Some(l), Option::Some(t)) => l@ != t@,
            _ => false,
        }),
{
    let update_available = match (&local, &latest) {
        (Option::Some(l), Option::Some(t)) => !str_eq(l.as_str(), t.as_str()),
        _ => false,
    };
    CheckUpdateResult { local_version: local, latest_version: latest, update_available }
}

/// The destination path of one pack inside the chosen directory: the
/// directory with trailing slashes trimmed, a slash, and the file name.
pub open spec fn trim_trailing_slashes(s: Seq<char>) -> Seq<char>
    decreases s.len(),
{
    if s.len() > 0 && s.last() == '/' {
        trim_trailing_slashes(s.drop_last())
    } else {
        s
    }
}

/// Join a destination directory and a pack file name.
pub fn pack_dest_path(dest_dir: &str, filename: &str) -> (r: String)
    ensures
        r@ == trim_trailing_slashes(dest_dir@) + "/"@ + filename@,
{
    let n = dest_dir.unicode_len();
    proof {
        assert(dest_dir@.subrange(0, n as int) =~= dest_dir@);
    }
    let mut cut: usize = n;
    while cut > 0 && dest_dir.get_char(cut - 1) == '/'
        invariant
            n == dest_dir@.len(),
            cut <= n,
            trim_trailing_slashes(dest_dir@) == trim_trailing_slashes(
                dest_dir@.subrange(0, cut as int),
            ),
        decreases cut,
    {
        proof {
            assert(dest_dir@.subrange(0, cut as int).drop_last() =~= dest_dir@.subrange(
                0,
                cut - 1,
            ));
            assert(dest_dir@.subrange(0, cut as int).last() == dest_dir@[cut - 1]);
        }
        cut = cut - 1;
    }
    proof {
        let pre = dest_dir@.subrange(0, cut as int);
        if pre.len() > 0 {
            assert(pre.last() == dest_dir@[cut - 1]);
        }
        assert(trim_trailing_slashes(pre) == pre);
    }
    let mut s = String::new();
    s.append(dest_dir.substring_char(0, cut));
    s.append("/");
    s.append(filename);
    proof {
        assert(dest_dir@.subrange(0, n as int) =~= dest_dir@);
        assert(s@ =~= trim_trailing_slashes(dest_dir@) + "/"@ + filename@);
    }
    s
}

} // verus!
