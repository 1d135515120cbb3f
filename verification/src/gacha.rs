//! Pull-record ("gacha") analysis: authentication URL assembly, record
//! normalization with pity tracking, per-pool statistics, and export
//! formatting.  Network and file access stay in the unverified shell.

use vstd::prelude::*;

use crate::text::{
    contains_seq, dec_str, is_dec_digit_char, pad2_str, pad4_str, str_eq, u64_to_dec, u64_to_pad2,
    u64_to_pad4,
};

verus! {

/// One normalized pull record.
///
/// `pity` counts pulls since the last six-star result in the same pool
/// category, this pull included.
#[derive(Debug)]
pub struct GachaRecord {
    pub id: String,
    pub uid: String,
    pub game_id: String,
    pub pool_name: String,
    pub pool_type: String,
    pub item_name: String,
    pub item_type: String,
    pub rarity: u8,
    pub timestamp: i64,
    pub is_new: bool,
    pub pity: u32,
}

/// A player's stored pull history for one game.
#[derive(Debug)]
pub struct GachaData {
    pub uid: String,
    pub game_id: String,
    pub records: Vec<GachaRecord>,
    pub fetched_at: i64,
}

/// Aggregate figures for one pool category.  Rates carry fixed-point
/// values: `six_star_rate_permille` in tenths of a percent and
/// `avg_pity_tenths` in tenths of a pull, both rounded half up.
#[derive(Debug)]
pub struct PoolStats {
    pub pool_type: String,
    pub total_pulls: u32,
    pub six_star_count: u32,
    pub five_star_count: u32,
    pub four_star_count: u32,
    pub three_star_count: u32,
    pub six_star_rate_permille: u32,
    pub current_pity: u32,
    pub avg_pity_tenths: u64,
}

/// The whole statistics report for one player.
#[derive(Debug)]
pub struct GachaStatsResult {
    pub uid: String,
    pub total_pulls: u32,
    pub by_pool: Vec<PoolStats>,
    pub fetched_at: i64,
}

/// The authentication application code each game logs in with.
pub fn app_code_for(game_id: &str) -> (r: &'static str)
    ensures
        r@ == if game_id@ == "endfield"@ {
            "6LL0KJuqHBVz33WK"@
        } else {
            "GzD1CpaWgmSq1wew"@
        },
{
    if str_eq(game_id, "endfield") {
        "6LL0KJuqHBVz33WK"
    } else {
        "GzD1CpaWgmSq1wew"
    }
}

/// The per-game base URL of the pull-history inquiry endpoint.
pub fn gacha_inquiry_base(game_id: &str) -> (r: &'static str)
    ensures
        r@ == if game_id@ == "endfield"@ {
            "https://beyond.hypergryph.com/user/api/inquiry/gacha"@
        } else {
            "https://ak.hypergryph.com/user/api/inquiry/gacha"@
        },
{
    if str_eq(game_id, "endfield") {
        "https://beyond.hypergryph.com/user/api/inquiry/gacha"
    } else {
        "https://ak.hypergryph.com/user/api/inquiry/gacha"
    }
}

/// The host-and-path fragment whose presence in a scanned file marks the
/// authenticated pull-history URL, per game.
pub fn gacha_url_pattern(game_id: &str) -> (r: Option<&'static str>)
    ensures
        match r {
            Option::Some(p) => (game_id@ == "arknights"@ && p@
                == "ak.hypergryph.com/user/api/inquiry/gacha"@) || (game_id@ == "endfield"@ && p@
                == "beyond.hypergryph.com/user/api/inquiry/gacha"@),
            Option::None => game_id@ != "arknights"@ && game_id@ != "endfield"@,
        },
{
    if str_eq(game_id, "arknights") {
        Option::Some("ak.hypergryph.com/user/api/inquiry/gacha")
    } else if str_eq(game_id, "endfield") {
        Option::Some("beyond.hypergryph.com/user/api/inquiry/gacha")
    } else {
        Option::None
    }
}

/// Assemble the authenticated inquiry URL from a grant token and uid.
pub fn build_gacha_url(game_id: &str, grant_token: &str, uid: &str) -> (r: String)
    ensures
        r@ == (if game_id@ == "endfield"@ {
            "https://beyond.hypergryph.com/user/api/inquiry/gacha"@
        } else {
            "https://ak.hypergryph.com/user/api/inquiry/gacha"@
        }) + "?channelId=1&token="@ + grant_token@ + "&uid="@ + uid@,
{
    let base = gacha_inquiry_base(game_id);
    let mut s = String::new();
    s.append(base);
    s.append("?channelId=1&token=");
    s.append(grant_token);
    s.append("&uid=");
    s.append(uid);
    proof {
        assert(s@ =~= (if game_id@ == "endfield"@ {
            "https://beyond.hypergryph.com/user/api/inquiry/gacha"@
        } else {
            "https://ak.hypergryph.com/user/api/inquiry/gacha"@
        }) + "?channelId=1&token="@ + grant_token@ + "&uid="@ + uid@);
    }
    s
}

/// The decimal digits of a string, in order.
pub open spec fn digits_of(s: Seq<char>) -> Seq<char>
    decreases s.len(),
{
    if s.len() == 0 {
        Seq::empty()
    } else {
        digits_of(s.drop_last()) + (if is_dec_digit_char(s.last()) {
            seq![s.last()]
        } else {
            Seq::<char>::empty()
        })
    }
}

/// The masked rendering of a phone number: the first three and last four
/// of its digits around four asterisks, or three asterisks when there are
/// fewer than seven digits.
pub open spec fn mask_phone_view(phone: Seq<char>) -> Seq<char> {
    let d = digits_of(phone);
    if d.len() >= 7 {
        d.subrange(0, 3) + "****"@ + d.subrange(d.len() - 4, d.len() as int)
    } else {
        "***"@
    }
}

/// Mask a phone number for display.
pub fn mask_phone(phone: &str) -> (r: String)
    ensures
        r@ == mask_phone_view(phone@),
{
    let n = phone.unicode_len();
    let mut digits = String::new();
    let mut i: usize = 0;
    while i < n
        invariant
            n == phone@.len(),
            i <= n,
            digits@ == digits_of(phone@.subrange(0, i as int)),
        decreases n - i,
    {
        let c = phone.get_char(i) as u32;
        proof {
            assert(phone@.subrange(0, i + 1).drop_last() =~= phone@.subrange(0, i as int));
            assert(phone@.subrange(0, i + 1).last() == phone@[i as int]);
        }
        if 48 <= c && c <= 57 {
            digits.append(phone.substring_char(i, i + 1));
            proof {
                assert(phone@.subrange(i as int, i + 1) =~= seq![phone@[i as int]]);
            }
        }
        i = i + 1;
    }
    proof {
        assert(phone@.subrange(0, n as int) =~= phone@);
    }
    let dn = digits.unicode_len();
    if dn >= 7 {
        let mut s = String::new();
        s.append(digits.as_str().substring_char(0, 3));
        s.append("****");
        s.append(digits.as_str().substring_char(dn - 4, dn));
        proof {
            assert(s@ =~= mask_phone_view(phone@));
        }
        s
    } else {
        let mut s = String::new();
        s.append("***");
        proof {
            assert(s@ =~= mask_phone_view(phone@));
        }
        s
    }
}

/// The display label of each pool category.
pub open spec fn pool_type_cn_view(pt: Seq<char>) -> Seq<char> {
    if pt == "standard"@ {
        "标准"@
    } else if pt == "limited"@ {
        "限定"@
    } else if pt == "beginner"@ {
        "新手"@
    } else if pt == "special"@ {
        "特殊"@
    } else {
        "其他"@
    }
}

/// Display label of a pool category.
pub fn pool_type_cn(pool_type: &str) -> (r: &'static str)
    ensures
        r@ == pool_type_cn_view(pool_type@),
{
    if str_eq(pool_type, "standard") {
        "标准"
    } else if str_eq(pool_type, "limited") {
        "限定"
    } else if str_eq(pool_type, "beginner") {
        "新手"
    } else if str_eq(pool_type, "special") {
        "特殊"
    } else {
        "其他"
    }
}

/// Leap years of the proleptic Gregorian calendar.
pub open spec fn is_leap_year(y: int) -> bool {
    (y % 4 == 0 && y % 100 != 0) || y % 400 == 0
}

pub open spec fn days_in_year(y: int) -> int {
    if is_leap_year(y) {
        366
    } else {
        365
    }
}

pub open spec fn month_len(y: int, m: int) -> int {
    if m == 2 {
        if is_leap_year(y) {
            29
        } else {
            28
        }
    } else if m == 4 || m == 6 || m == 9 || m == 11 {
        30
    } else {
        31
    }
}

/// Walk the months of year `y`: the (month, day-of-month) that `days`
/// more days from the start of month `m` land on.
pub open spec fn md_rec(y: int, m: int, days: int) -> (int, int)
    decreases 12 - m,
{
    if m >= 12 || days < month_len(y, m) {
        (m, days + 1)
    } else {
        md_rec(y, m + 1, days - month_len(y, m))
    }
}

/// Walk the years from `y`: the (year, month, day) that `days` days after
/// the start of year `y` land on.
pub open spec fn ymd_rec(y: int, days: int) -> (int, int, int)
    decreases days,
{
    if days < days_in_year(y) {
        let md = md_rec(y, 1, days);
        (y, md.0, md.1)
    } else {
        ymd_rec(y + 1, days - days_in_year(y))
    }
}

pub fn is_leap(y: u64) -> (r: bool)
    ensures
        r == is_leap_year(y as int),
{
    (y % 4 == 0 && y % 100 != 0) || y % 400 == 0
}

fn days_in_year_u(y: u64) -> (r: u64)
    ensures
        r == days_in_year(y as int),
{
    if is_leap(y) {
        366
    } else {
        365
    }
}

fn month_len_u(y: u64, m: u64) -> (r: u64)
    ensures
        r == month_len(y as int, m as int),
{
    if m == 2 {
        if is_leap(y) {
            29
        } else {
            28
        }
    } else if m == 4 || m == 6 || m == 9 || m == 11 {
        30
    } else {
        31
    }
}

fn md_helper(y: u64, m: u64, days: u64) -> (r: (u64, u64))
    requires
        1 <= m <= 12,
        days < 400,
    ensures
        (r.0 as int, r.1 as int) == md_rec(y as int, m as int, days as int),
    decreases 12 - m,
{
    let ml = month_len_u(y, m);
    if m >= 12 || days < ml {
        (m, days + 1)
    } else {
        md_helper(y, m + 1, days - ml)
    }
}

/// Convert a count of days since 1970-01-01 to a calendar date.
pub fn days_to_ymd(days: u64) -> (r: (u64, u64, u64))
    ensures
        (r.0 as int, r.1 as int, r.2 as int) == ymd_rec(1970, days as int),
{
    let mut year: u64 = 1970;
    let mut d: u64 = days;
    let ghost total = days as int;
    while d >= days_in_year_u(year)
        invariant
            ymd_rec(1970, total) == ymd_rec(year as int, d as int),
            0 <= total <= u64::MAX,
            d <= total,
            (year - 1970) * 365 <= total - d,
            year >= 1970,
        decreases d,
    {
        let diy = days_in_year_u(year);
        proof {
            assert((year + 1 - 1970) * 365 <= total - (d - diy));
            assert(year as int + 1 <= u64::MAX) by (nonlinear_arith)
                requires
                    (year - 1970) * 365 <= total - d,
                    d <= total,
                    total <= u64::MAX,
                    year >= 1970,
                    d >= diy,
                    diy >= 365,
            ;
        }
        d = d - diy;
        year = year + 1;
    }
    let md = md_helper(year, 1, d);
    (year, md.0, md.1)
}

/// The timestamp rendering `YYYY-MM-DD hh:mm:ss` of a Unix time; the
/// epoch itself for zero or negative stamps.
pub open spec fn format_ts_view(ts: int) -> Seq<char> {
    if ts <= 0 {
        "1970-01-01 00:00:00"@
    } else {
        let tod = ts % 86400;
        let ymd = ymd_rec(1970, ts / 86400);
        pad4_str(ymd.0) + "-"@ + pad2_str(ymd.1) + "-"@ + pad2_str(ymd.2) + " "@ + pad2_str(
            tod / 3600,
        ) + ":"@ + pad2_str((tod % 3600) / 60) + ":"@ + pad2_str(tod % 60)
    }
}

/// Render a Unix timestamp for display.
pub fn format_ts(ts: i64) -> (r: String)
    ensures
        r@ == format_ts_view(ts as int),
{
    if ts <= 0 {
        let mut s = String::new();
        s.append("1970-01-01 00:00:00");
        s
    } else {
        let secs = ts as u64;
        let tod: u64 = secs % 86400;
        let days: u64 = secs / 86400;
        let h: u64 = tod / 3600;
        let mnt: u64 = (tod % 3600) / 60;
        let sec: u64 = tod % 60;
        let ymd = days_to_ymd(days);
        let mut s = String::new();
        let p_year = u64_to_pad4(ymd.0);
        s.append(p_year.as_str());
        s.append("-");
        let p_mon = u64_to_pad2(ymd.1);
        s.append(p_mon.as_str());
        s.append("-");
        let p_day = u64_to_pad2(ymd.2);
        s.append(p_day.as_str());
        s.append(" ");
        let p_h = u64_to_pad2(h);
        s.append(p_h.as_str());
        s.append(":");
        let p_m = u64_to_pad2(mnt);
        s.append(p_m.as_str());
        s.append(":");
        let p_s = u64_to_pad2(sec);
        s.append(p_s.as_str());
        proof {
            assert(s@ =~= format_ts_view(ts as int));
        }
        s
    }
}

/// What str::to_lowercase returns: the Unicode lowercase form of the
/// text, a function of the characters alone.
pub uninterp spec fn lower_of(s: Seq<char>) -> Seq<char>;

/// Relies on str::to_lowercase for Unicode case folding.
#[verifier::external_body]
fn to_lowercase_str(s: &str) -> (r: String)
    ensures
        r@ == lower_of(s@),
{
    s.to_lowercase()
}

/// The pool category a lowercased pool name falls under, per game.
pub open spec fn classify_pool_view(game_id: Seq<char>, name: Seq<char>) -> Seq<char> {
    if game_id == "arknights"@ {
        if contains_seq(name, "新手"@) || contains_seq(name, "beginner"@) {
            "beginner"@
        } else if contains_seq(name, "标准"@) || contains_seq(name, "standard"@) {
            "standard"@
        } else if contains_seq(name, "中坚"@) || contains_seq(name, "veteran"@) || contains_seq(
            name,
            "联合"@,
        ) {
            "special"@
        } else {
            "limited"@
        }
    } else if game_id == "endfield"@ {
        if contains_seq(name, "常驻"@) || contains_seq(name, "standard"@) || contains_seq(
            name,
            "标准"@,
        ) {
            "standard"@
        } else if contains_seq(name, "新手"@) || contains_seq(name, "beginner"@) {
            "beginner"@
        } else {
            "limited"@
        }
    } else {
        "standard"@
    }
}

/// Sort a pool name into its category by well-known name fragments.
pub fn classify_pool(game_id: &str, pool_name: &str) -> (r: &'static str)
    ensures
        r@ == classify_pool_view(game_id@, lower_of(pool_name@)),
{
    let lowered = to_lowercase_str(pool_name);
    let name = lowered.as_str();
    if str_eq(game_id, "arknights") {
        if crate::text::contains_sub(name, "新手") || crate::text::contains_sub(name, "beginner") {
            "beginner"
        } else if crate::text::contains_sub(name, "标准") || crate::text::contains_sub(
            name,
            "standard",
        ) {
            "standard"
        } else if crate::text::contains_sub(name, "中坚") || crate::text::contains_sub(
            name,
            "veteran",
        ) || crate::text::contains_sub(name, "联合") {
            "special"
        } else {
            "limited"
        }
    } else if str_eq(game_id, "endfield") {
        if crate::text::contains_sub(name, "常驻") || crate::text::contains_sub(name, "standard")
            || crate::text::contains_sub(name, "标准") {
            "standard"
        } else if crate::text::contains_sub(name, "新手") || crate::text::contains_sub(
            name,
            "beginner",
        ) {
            "beginner"
        } else {
            "limited"
        }
    } else {
        "standard"
    }
}

/// The next page's URL: the base with a `size` parameter, and from the
/// second page on the sequence cursor of the page to fetch.
pub open spec fn page_url_view(base_url: Seq<char>, seq_num: int, size: int) -> Seq<char> {
    let sep = if base_url.contains('?') {
        "&"@
    } else {
        "?"@
    };
    if seq_num == 0 {
        base_url + sep + "size="@ + dec_str(size)
    } else {
        base_url + sep + "seqNum="@ + crate::text::i64_dec_str(seq_num) + "&size="@ + dec_str(size)
    }
}

/// Assemble the URL of one history page.
pub fn build_page_url(base_url: &str, seq_num: i64, size: u32) -> (r: String)
    ensures
        r@ == page_url_view(base_url@, seq_num as int, size as int),
{
    let mut s = String::new();
    s.append(base_url);
    if crate::text::contains_char(base_url, '?') {
        s.append("&");
    } else {
        s.append("?");
    }
    if seq_num == 0 {
        s.append("size=");
        let d = u64_to_dec(size as u64);
        s.append(d.as_str());
    } else {
        s.append("seqNum=");
        let d1 = crate::text::i64_to_dec(seq_num);
        s.append(d1.as_str());
        s.append("&size=");
        let d2 = u64_to_dec(size as u64);
        s.append(d2.as_str());
    }
    proof {
        assert(s@ =~= page_url_view(base_url@, seq_num as int, size as int));
    }
    s
}

/// A text with every double quote doubled, as quoted CSV fields want.
pub open spec fn escape_quotes(s: Seq<char>) -> Seq<char>
    decreases s.len(),
{
    if s.len() == 0 {
        Seq::empty()
    } else {
        escape_quotes(s.drop_last()) + (if s.last() == '"' {
            seq!['"', '"']
        } else {
            seq![s.last()]
        })
    }
}

/// A CSV field: quoted with inner quotes doubled when the text holds a
/// comma, a quote or a newline; unchanged otherwise.
pub open spec fn csv_escape_view(s: Seq<char>) -> Seq<char> {
    if s.contains(',') || s.contains('"') || s.contains('\n') {
        seq!['"'] + escape_quotes(s) + seq!['"']
    } else {
        s
    }
}

/// Escape one CSV field.
pub fn csv_escape(s: &str) -> (r: String)
    ensures
        r@ == csv_escape_view(s@),
{
    if crate::text::contains_char(s, ',') || crate::text::contains_char(s, '"')
        || crate::text::contains_char(s, '\n') {
        let n = s.unicode_len();
        let mut out = String::new();
        out.append("\"");
        proof {
            reveal_strlit("\"");
            assert(out@ =~= seq!['"'] + escape_quotes(s@.subrange(0, 0)));
        }
        let mut i: usize = 0;
        while i < n
            invariant
                n == s@.len(),
                i <= n,
                out@ == seq!['"'] + escape_quotes(s@.subrange(0, i as int)),
            decreases n - i,
        {
            proof {
                reveal_strlit("\"");
                reveal_strlit("\"\"");
                assert(s@.subrange(0, i + 1).drop_last() =~= s@.subrange(0, i as int));
                assert(s@.subrange(0, i + 1).last() == s@[i as int]);
            }
            if s.get_char(i) == '"' {
                out.append("\"\"");
            } else {
                out.append(s.substring_char(i, i + 1));
                proof {
                    assert(s@.subrange(i as int, i + 1) =~= seq![s@[i as int]]);
                }
            }
            proof {
                assert(out@ =~= seq!['"'] + escape_quotes(s@.subrange(0, i + 1)));
            }
            i = i + 1;
        }
        out.append("\"");
        proof {
            reveal_strlit("\"");
            assert(s@.subrange(0, n as int) =~= s@);
            assert(out@ =~= csv_escape_view(s@));
        }
        out
    } else {
        s.to_owned()
    }
}

/// One item from a raw history entry, as the remote API reports it.
#[derive(Debug)]
pub struct RawChar {
    pub name: String,
    pub item_type: String,
    pub rarity: u8,
    pub is_new: bool,
}

/// One raw history entry: a timestamp, a pool name, and the items pulled.
#[derive(Debug)]
pub struct RawEntry {
    pub ts: i64,
    pub pool: String,
    pub chars: Vec<RawChar>,
}

/// Number of items across a list of raw entries.
pub open spec fn total_chars(entries: Seq<RawEntry>) -> int
    decreases entries.len(),
{
    if entries.len() == 0 {
        0
    } else {
        total_chars(entries.drop_last()) + entries.last().chars@.len()
    }
}

proof fn lemma_total_chars_nonneg(entries: Seq<RawEntry>)
    ensures
        total_chars(entries) >= 0,
    decreases entries.len(),
{
    if entries.len() > 0 {
        lemma_total_chars_nonneg(entries.drop_last());
    }
}

proof fn lemma_total_chars_prefix_le(entries: Seq<RawEntry>, n: int)
    requires
        0 <= n <= entries.len(),
    ensures
        total_chars(entries.subrange(0, n)) <= total_chars(entries),
    decreases entries.len(),
{
    if n == entries.len() {
        assert(entries.subrange(0, n) =~= entries);
    } else {
        lemma_total_chars_prefix_le(entries.drop_last(), n);
        assert(entries.drop_last().subrange(0, n) =~= entries.subrange(0, n));
    }
}

proof fn lemma_total_chars_drop_first(entries: Seq<RawEntry>)
    requires
        entries.len() > 0,
    ensures
        total_chars(entries) == entries.first().chars@.len() + total_chars(entries.drop_first()),
    decreases entries.len(),
{
    if entries.len() == 1 {
        assert(entries.drop_first().len() == 0);
        assert(entries.drop_last().len() == 0);
        assert(total_chars(entries.drop_first()) == 0);
        assert(total_chars(entries.drop_last()) == 0);
        assert(entries.first() == entries.last());
    } else {
        lemma_total_chars_drop_first(entries.drop_last());
        assert(entries.drop_last().first() == entries.first());
        assert(entries.drop_last().drop_first() =~= entries.drop_first().drop_last());
        assert(entries.drop_first().last() == entries.last());
        assert(entries.drop_first().len() > 0);
        assert(total_chars(entries.drop_first()) == total_chars(entries.drop_first().drop_last())
            + entries.drop_first().last().chars@.len());
        assert(total_chars(entries) == total_chars(entries.drop_last())
            + entries.last().chars@.len());
        assert(total_chars(entries.drop_last()) == entries.first().chars@.len() + total_chars(
            entries.drop_last().drop_first(),
        ));
        assert(total_chars(entries.drop_last().drop_first()) == total_chars(
            entries.drop_first().drop_last(),
        ));
    }
}

/// Element-wise reversal keeps the item count.
proof fn lemma_total_chars_reversed(a: Seq<RawEntry>, b: Seq<RawEntry>)
    requires
        a.len() == b.len(),
        forall|j: int| 0 <= j < a.len() ==> a[j] == b[a.len() - 1 - j],
    ensures
        total_chars(a) == total_chars(b),
    decreases a.len(),
{
    if a.len() > 0 {
        lemma_total_chars_drop_first(b);
        assert(a.last() == b.first());
        assert forall|j: int| 0 <= j < a.drop_last().len() implies a.drop_last()[j]
            == b.drop_first()[a.drop_last().len() - 1 - j] by {
            assert(a.drop_last()[j] == a[j]);
            assert(b.drop_first()[a.len() - 2 - j] == b[a.len() - 1 - j]);
        }
        lemma_total_chars_reversed(a.drop_last(), b.drop_first());
    }
}

/// Index of the latest record of the given pool category, or -1.
pub open spec fn last_of_pool(rs: Seq<GachaRecord>, pt: Seq<char>) -> int
    decreases rs.len(),
{
    if rs.len() == 0 {
        -1
    } else if rs.last().pool_type@ == pt {
        rs.len() - 1
    } else {
        last_of_pool(rs.drop_last(), pt)
    }
}

pub proof fn lemma_last_of_pool(rs: Seq<GachaRecord>, pt: Seq<char>)
    ensures
        -1 <= last_of_pool(rs, pt) < rs.len(),
        last_of_pool(rs, pt) >= 0 ==> rs[last_of_pool(rs, pt)].pool_type@ == pt,
        last_of_pool(rs, pt) < 0 ==> forall|m: int|
            0 <= m < rs.len() ==> (#[trigger] rs[m]).pool_type@ != pt,
    decreases rs.len(),
{
    if rs.len() > 0 && rs.last().pool_type@ != pt {
        lemma_last_of_pool(rs.drop_last(), pt);
        if last_of_pool(rs, pt) < 0 {
            assert forall|m: int| 0 <= m < rs.len() implies (#[trigger] rs[m]).pool_type@
                != pt by {
                if m < rs.len() - 1 {
                    assert(rs.drop_last()[m] == rs[m]);
                }
            }
        }
    }
}

proof fn lemma_last_of_pool_push(rs: Seq<GachaRecord>, r: GachaRecord, pt: Seq<char>)
    ensures
        last_of_pool(rs.push(r), pt) == if r.pool_type@ == pt {
            rs.len() as int
        } else {
            last_of_pool(rs, pt)
        },
{
    assert(rs.push(r).drop_last() =~= rs);
    assert(rs.push(r).last() == r);
}

/// The pity recurrence: a record's pity is 1 at its pool category's first
/// pull and right after a six-star there, and one more than its
/// category's previous record otherwise.
pub open spec fn pity_law(rs: Seq<GachaRecord>) -> bool {
    forall|k: int|
        0 <= k < rs.len() ==> {
            let p = last_of_pool(rs.subrange(0, k), (#[trigger] rs[k]).pool_type@);
            rs[k].pity == if p < 0 {
                1
            } else if rs[p].rarity >= 6 {
                1
            } else {
                rs[p].pity + 1
            }
        }
}

/// The fields of a normalized record that do not depend on its
/// neighbours: owner, sequential id, rarity brought into `1..=6`, and a
/// pool category derived from the record's own pool name.
pub open spec fn record_static_ok(
    rec: GachaRecord,
    uid: Seq<char>,
    game_id: Seq<char>,
    k: int,
) -> bool {
    &&& rec.uid@ == uid
    &&& rec.game_id@ == game_id
    &&& rec.id@ == uid + "_"@ + dec_str(k)
    &&& 1 <= rec.rarity <= 6
    &&& 1 <= rec.pity <= k + 1
    &&& rec.pool_type@ == classify_pool_view(game_id, lower_of(rec.pool_name@))
    &&& (rec.item_type@ == "character"@ || rec.item_type@ == "weapon"@)
}

/// The loop-carried pity counters agree with the records built so far:
/// each tracked category's counter is its latest record's pity, or zero
/// right after a six-star, and every category that has a record is
/// tracked.
spec fn counters_ok(pities: Seq<(String, u32)>, out: Seq<GachaRecord>) -> bool {
    &&& forall|e: int|
        0 <= e < pities.len() ==> {
            let p = last_of_pool(out, (#[trigger] pities[e]).0@);
            &&& p >= 0
            &&& pities[e].1 == if out[p].rarity >= 6 {
                0
            } else {
                out[p].pity as int
            }
        }
    &&& forall|e1: int, e2: int|
        0 <= e1 < e2 < pities.len() ==> (#[trigger] pities[e1].0@) != (#[trigger] pities[e2].0@)
    &&& forall|pt: Seq<char>|
        #[trigger] last_of_pool(out, pt) >= 0 ==> exists|e: int|
            0 <= e < pities.len() && pities[e].0@ == pt
}

fn pity_find(pities: &Vec<(String, u32)>, key: &str) -> (r: Option<usize>)
    ensures
        match r {
            Option::Some(i) => i < pities@.len() && pities@[i as int].0@ == key@,
            Option::None => forall|j: int|
                0 <= j < pities@.len() ==> (#[trigger] pities@[j]).0@ != key@,
        },
{
    let n = pities.len();
    let mut i: usize = 0;
    while i < n
        invariant
            n == pities@.len(),
            i <= n,
            forall|j: int| 0 <= j < i ==> (#[trigger] pities@[j]).0@ != key@,
        decreases n - i,
    {
        if str_eq(pities[i].0.as_str(), key) {
            return Option::Some(i);
        }
        i = i + 1;
    }
    Option::None
}

/// The record carries one raw item's data: its entry's pool name and
/// timestamp, and the item's name, novelty flag, normalized rarity and
/// kind.
pub open spec fn record_from_entry(rec: GachaRecord, en: RawEntry, ch: RawChar) -> bool {
    &&& rec.pool_name@ == en.pool@
    &&& rec.timestamp == en.ts
    &&& rec.item_name@ == ch.name@
    &&& rec.is_new == ch.is_new
    &&& rec.rarity == if ch.rarity >= 5 {
        6int
    } else {
        ch.rarity + 1
    }
    &&& rec.item_type@ == if crate::checksum::eq_ignore_case(ch.item_type@, "CHAR"@) {
        "character"@
    } else {
        "weapon"@
    }
}

/// Every record stems from one item of one entry.
pub open spec fn sourced(recs: Seq<GachaRecord>, entries: Seq<RawEntry>) -> bool {
    forall|k: int|
        0 <= k < recs.len() ==> exists|e: int, c: int|
            0 <= e < entries.len() && 0 <= c < entries[e].chars@.len() && record_from_entry(
                #[trigger] recs[k],
                entries[e],
                #[trigger] entries[e].chars@[c],
            )
}

/// Normalize raw history entries, newest first as the API returns them,
/// into chronological records with sequential ids and running pity
/// counters per pool category.
#[verifier::rlimit(100)]
pub fn build_records_with_pity(uid: &str, game_id: &str, entries: Vec<RawEntry>) -> (r: Vec<
    GachaRecord,
>)
    requires
        total_chars(entries@) < u32::MAX,
    ensures
        r@.len() == total_chars(entries@),
        pity_law(r@),
        forall|k: int|
            0 <= k < r@.len() ==> record_static_ok(#[trigger] r@[k], uid@, game_id@, k),
        sourced(r@, entries@),
{
    let ghost given = entries@;
    let mut entries = entries;
    let mut rev: Vec<RawEntry> = Vec::new();
    loop
        invariant
            rev@.len() + entries@.len() == given.len(),
            entries@ == given.subrange(0, entries@.len() as int),
            forall|j: int| 0 <= j < rev@.len() ==> rev@[j] == given[given.len() - 1 - j],
        ensures
            entries@.len() == 0,
            rev@.len() == given.len(),
            forall|j: int| 0 <= j < rev@.len() ==> rev@[j] == given[given.len() - 1 - j],
        decreases entries@.len(),
    {
        match entries.pop() {
            Option::Some(e) => {
                proof {
                    assert(entries@ =~= given.subrange(0, entries@.len() as int));
                }
                rev.push(e);
            },
            Option::None => {
                break ;
            },
        }
    }
    proof {
        lemma_total_chars_reversed(rev@, given);
    }
    let ghost revs = rev@;
    let mut out: Vec<GachaRecord> = Vec::new();
    let mut pities: Vec<(String, u32)> = Vec::new();
    let mut idx: u32 = 0;
    let ne = rev.len();
    let mut ei: usize = 0;
    while ei < ne
        invariant
            revs == rev@,
            ne == rev@.len(),
            ei <= ne,
            revs.len() == given.len(),
            forall|j: int| 0 <= j < revs.len() ==> revs[j] == given[given.len() - 1 - j],
            total_chars(revs) < u32::MAX,
            idx == out@.len(),
            out@.len() == total_chars(revs.subrange(0, ei as int)),
            pity_law(out@),
            forall|k: int|
                0 <= k < out@.len() ==> record_static_ok(#[trigger] out@[k], uid@, game_id@, k),
            counters_ok(pities@, out@),
            sourced(out@, given),
        decreases ne - ei,
    {
        let ptype_ref = classify_pool(game_id, rev[ei].pool.as_str());
        let nc = rev[ei].chars.len();
        let ghost entry_chars = rev[ei as int].chars@;
        let mut ci: usize = 0;
        proof {
            assert(revs.subrange(0, ei + 1).drop_last() =~= revs.subrange(0, ei as int));
            assert(revs.subrange(0, ei + 1).last() == revs[ei as int]);
            lemma_total_chars_prefix_le(revs, ei + 1);
            lemma_total_chars_nonneg(revs.subrange(0, ei as int));
        }
        while ci < nc
            invariant
                revs == rev@,
                ei < ne == rev@.len(),
                nc == rev@[ei as int].chars@.len(),
                entry_chars == rev@[ei as int].chars@,
                ci <= nc,
                total_chars(revs) < u32::MAX,
                total_chars(revs.subrange(0, ei + 1)) == total_chars(revs.subrange(0, ei as int))
                    + nc,
                idx == out@.len(),
                out@.len() == total_chars(revs.subrange(0, ei as int)) + ci,
                total_chars(revs.subrange(0, ei as int)) + nc <= total_chars(revs),
                pity_law(out@),
                forall|k: int|
                    0 <= k < out@.len() ==> record_static_ok(
                        #[trigger] out@[k],
                        uid@,
                        game_id@,
                        k,
                    ),
                counters_ok(pities@, out@),
                sourced(out@, given),
                revs.len() == given.len(),
                forall|j: int| 0 <= j < revs.len() ==> revs[j] == given[given.len() - 1 - j],
                ptype_ref@ == classify_pool_view(game_id@, lower_of(rev@[ei as int].pool@)),
            decreases nc - ci,
        {
            let ch = &rev[ei].chars[ci];
            let ptype: String = ptype_ref.to_owned();
            let counter: u32 = match pity_find(&pities, ptype.as_str()) {
                Option::Some(e) => pities[e].1,
                Option::None => 0,
            };
            proof {
                lemma_last_of_pool(out@, ptype@);
                if last_of_pool(out@, ptype@) >= 0 {
                    let p = last_of_pool(out@, ptype@);
                    assert(record_static_ok(out@[p], uid@, game_id@, p));
                }
            }
            let pity: u32 = counter + 1;
            let rarity: u8 = if ch.rarity >= 5 {
                6
            } else {
                ch.rarity + 1
            };
            let item_type: &str = if crate::checksum::ascii_eq_ignore_case(
                ch.item_type.as_str(),
                "CHAR",
            ) {
                "character"
            } else {
                "weapon"
            };
            let mut id = String::new();
            id.append(uid);
            id.append("_");
            let d = u64_to_dec(idx as u64);
            id.append(d.as_str());
            proof {
                assert(id@ =~= uid@ + "_"@ + dec_str(idx as int));
            }
            let rec = GachaRecord {
                id,
                uid: uid.to_owned(),
                game_id: game_id.to_owned(),
                pool_name: rev[ei].pool.clone(),
                pool_type: ptype,
                item_name: ch.name.clone(),
                item_type: item_type.to_owned(),
                rarity,
                timestamp: rev[ei].ts,
                is_new: ch.is_new,
                pity,
            };
            let ghost out_pre = out@;
            let ghost rec_g = rec;
            let six = rarity >= 6;
            out.push(rec);
            proof {
                assert(out@ == out_pre.push(rec_g));
                assert forall|k: int| 0 <= k < out@.len() implies exists|e: int, c: int|
                    0 <= e < given.len() && 0 <= c < given[e].chars@.len() && record_from_entry(
                        #[trigger] out@[k],
                        given[e],
                        #[trigger] given[e].chars@[c],
                    ) by {
                    if k < out_pre.len() {
                        assert(sourced(out_pre, given));
                        assert(out@[k] == out_pre[k]);
                        let (e, c) = choose|e: int, c: int|
                            0 <= e < given.len() && 0 <= c < given[e].chars@.len()
                                && record_from_entry(out_pre[k], given[e], given[e].chars@[c]);
                        assert(record_from_entry(out@[k], given[e], given[e].chars@[c]));
                    } else {
                        let e = given.len() - 1 - ei;
                        assert(revs[ei as int] == given[e]);
                        assert(out@[k] == rec_g);
                        assert(record_from_entry(rec_g, given[e], given[e].chars@[ci as int]));
                    }
                }
                assert(sourced(out@, given));
                assert forall|k: int|
                    0 <= k < out@.len() implies record_static_ok(
                    #[trigger] out@[k],
                    uid@,
                    game_id@,
                    k,
                ) by {
                    if k < out_pre.len() {
                        assert(out@[k] == out_pre[k]);
                        assert(record_static_ok(out_pre[k], uid@, game_id@, k));
                    } else {
                        assert(out@[k] == rec_g);
                    }
                }
                assert forall|k: int| 0 <= k < out@.len() implies {
                    let p = last_of_pool(out@.subrange(0, k), (#[trigger] out@[k]).pool_type@);
                    out@[k].pity == if p < 0 {
                        1
                    } else if out@[p].rarity >= 6 {
                        1
                    } else {
                        out@[p].pity + 1
                    }
                } by {
                    if k < out_pre.len() {
                        assert(out@.subrange(0, k) =~= out_pre.subrange(0, k));
                        assert(out@[k] == out_pre[k]);
                        let p = last_of_pool(out_pre.subrange(0, k), out_pre[k].pool_type@);
                        lemma_last_of_pool(out_pre.subrange(0, k), out_pre[k].pool_type@);
                        if p >= 0 {
                            assert(out@[p] == out_pre[p]);
                        }
                    } else {
                        assert(out@.subrange(0, k) =~= out_pre);
                        assert(out@[k] == rec_g);
                        let p = last_of_pool(out_pre, rec_g.pool_type@);
                        lemma_last_of_pool(out_pre, rec_g.pool_type@);
                        if p >= 0 {
                            assert(out@[p] == out_pre[p]);
                        }
                    }
                }
            }
            let value: u32 = if six {
                0
            } else {
                pity
            };
            let found = pity_find(&pities, out[out.len() - 1].pool_type.as_str());
            let ghost pities_pre = pities@;
            let ghost changed: int = match found {
                Option::Some(e) => e as int,
                Option::None => pities_pre.len() as int,
            };
            match found {
                Option::Some(e) => {
                    let key = pities[e].0.clone();
                    pities.set(e, (key, value));
                },
                Option::None => {
                    let key = out[out.len() - 1].pool_type.clone();
                    pities.push((key, value));
                },
            }
            proof {
                let pt = rec_g.pool_type@;
                assert(pities@[changed].0@ == pt);
                assert(pities@[changed].1 == value);
                assert(forall|j: int|
                    0 <= j < pities@.len() && j != changed ==> pities@[j] == pities_pre[j]);
                assert forall|e: int| 0 <= e < pities@.len() implies {
                    let p = last_of_pool(out@, (#[trigger] pities@[e]).0@);
                    &&& p >= 0
                    &&& pities@[e].1 == if out@[p].rarity >= 6 {
                        0
                    } else {
                        out@[p].pity as int
                    }
                } by {
                    lemma_last_of_pool_push(out_pre, rec_g, pities@[e].0@);
                    if e == changed {
                        assert(last_of_pool(out@, pt) == out_pre.len());
                        assert(out@[out_pre.len() as int] == rec_g);
                    } else {
                        assert(pities@[e] == pities_pre[e]);
                        assert(pities@[e].0@ != pt) by {
                            if pities_pre[e].0@ == pt {
                                match found {
                                    Option::Some(e0) => {
                                        assert(pities_pre[e0 as int].0@ == pt);
                                    },
                                    Option::None => {},
                                }
                            }
                        }
                        let p = last_of_pool(out_pre, pities_pre[e].0@);
                        lemma_last_of_pool(out_pre, pities_pre[e].0@);
                        assert(p >= 0);
                        assert(out@[p] == out_pre[p]);
                    }
                }
                assert forall|e1: int, e2: int|
                    0 <= e1 < e2 < pities@.len() implies (#[trigger] pities@[e1].0@) != (
                #[trigger] pities@[e2].0@) by {
                    if e1 != changed && e2 != changed {
                        assert(pities@[e1] == pities_pre[e1]);
                        assert(pities@[e2] == pities_pre[e2]);
                        assert(pities_pre[e1].0@ != pities_pre[e2].0@);
                    } else if e1 == changed {
                        assert(pities@[e2] == pities_pre[e2]);
                        if pities_pre[e2].0@ == pt {
                            match found {
                                Option::Some(e0) => {
                                    assert(pities_pre[e0 as int].0@ == pt);
                                },
                                Option::None => {},
                            }
                        }
                    } else {
                        assert(pities@[e1] == pities_pre[e1]);
                        if pities_pre[e1].0@ == pt {
                            match found {
                                Option::Some(e0) => {
                                    assert(pities_pre[e0 as int].0@ == pt);
                                },
                                Option::None => {},
                            }
                        }
                    }
                }
                assert forall|pt2: Seq<char>|
                    #[trigger] last_of_pool(out@, pt2) >= 0 implies exists|e: int|
                    0 <= e < pities@.len() && pities@[e].0@ == pt2 by {
                    lemma_last_of_pool_push(out_pre, rec_g, pt2);
                    if pt2 == pt {
                        assert(pities@[changed].0@ == pt2);
                    } else {
                        assert(last_of_pool(out_pre, pt2) >= 0);
                        let e = choose|e: int|
                            0 <= e < pities_pre.len() && pities_pre[e].0@ == pt2;
                        assert(e != changed ==> pities@[e] == pities_pre[e]);
                        if e == changed {
                            assert(pities@[changed].0@ == pt);
                        } else {
                            assert(pities@[e].0@ == pt2);
                        }
                    }
                }
                assert(counters_ok(pities@, out@));
            }
            idx = idx + 1;
            ci = ci + 1;
        }
        proof {
            assert(out@.len() == total_chars(revs.subrange(0, ei + 1)));
        }
        ei = ei + 1;
    }
    proof {
        assert(revs.subrange(0, ne as int) =~= revs);
    }
    out
}

/// Number of records in the given pool category.
pub open spec fn count_pool(rs: Seq<GachaRecord>, pt: Seq<char>) -> int
    decreases rs.len(),
{
    if rs.len() == 0 {
        0
    } else {
        count_pool(rs.drop_last(), pt) + if rs.last().pool_type@ == pt {
            1int
        } else {
            0int
        }
    }
}

/// Number of records of the category with exactly the given rarity.
pub open spec fn count_pool_rarity(rs: Seq<GachaRecord>, pt: Seq<char>, rar: int) -> int
    decreases rs.len(),
{
    if rs.len() == 0 {
        0
    } else {
        count_pool_rarity(rs.drop_last(), pt, rar) + if rs.last().pool_type@ == pt
            && rs.last().rarity == rar {
            1int
        } else {
            0int
        }
    }
}

/// Number of records of the category with rarity six or above.
pub open spec fn count_pool_six_up(rs: Seq<GachaRecord>, pt: Seq<char>) -> int
    decreases rs.len(),
{
    if rs.len() == 0 {
        0
    } else {
        count_pool_six_up(rs.drop_last(), pt) + if rs.last().pool_type@ == pt && rs.last().rarity
            >= 6 {
            1int
        } else {
            0int
        }
    }
}

/// The category's pulls since its last six-star, counted from the end.
pub open spec fn trailing_since_six(rs: Seq<GachaRecord>, pt: Seq<char>) -> int
    decreases rs.len(),
{
    if rs.len() == 0 {
        0
    } else if rs.last().pool_type@ == pt {
        if rs.last().rarity >= 6 {
            0
        } else {
            1 + trailing_since_six(rs.drop_last(), pt)
        }
    } else {
        trailing_since_six(rs.drop_last(), pt)
    }
}

/// The per-rarity counts partition the category's records, and the
/// trailing run never exceeds them.
proof fn lemma_pool_counts(rs: Seq<GachaRecord>, pt: Seq<char>)
    ensures
        0 <= count_pool_rarity(rs, pt, 6),
        0 <= count_pool_rarity(rs, pt, 5),
        0 <= count_pool_rarity(rs, pt, 4),
        count_pool_rarity(rs, pt, 6) + count_pool_rarity(rs, pt, 5) + count_pool_rarity(rs, pt, 4)
            <= count_pool(rs, pt),
        0 <= count_pool_six_up(rs, pt) <= count_pool(rs, pt),
        0 <= trailing_since_six(rs, pt) <= count_pool(rs, pt),
        count_pool(rs, pt) <= rs.len(),
    decreases rs.len(),
{
    if rs.len() > 0 {
        lemma_pool_counts(rs.drop_last(), pt);
    }
}

/// The figures one pool category's statistics must carry, over the whole
/// record list.  The average pity uses the identity that the pity spans
/// of successive six-stars telescope: their sum is the number of category
/// pulls up to and including the last six-star.
pub open spec fn pool_stats_ok(ps: PoolStats, rs: Seq<GachaRecord>) -> bool {
    let pt = ps.pool_type@;
    let total = count_pool(rs, pt);
    let six_up = count_pool_six_up(rs, pt);
    let span_sum = total - trailing_since_six(rs, pt);
    &&& ps.total_pulls == total
    &&& ps.six_star_count == count_pool_rarity(rs, pt, 6)
    &&& ps.five_star_count == count_pool_rarity(rs, pt, 5)
    &&& ps.four_star_count == count_pool_rarity(rs, pt, 4)
    &&& ps.three_star_count == total - ps.six_star_count - ps.five_star_count
        - ps.four_star_count
    &&& ps.current_pity == trailing_since_six(rs, pt)
    &&& (total > 0 ==> ps.six_star_rate_permille == (2 * count_pool_rarity(rs, pt, 6) * 1000
        + total) / (2 * total))
    &&& ps.avg_pity_tenths == if six_up == 0 {
        0int
    } else {
        (2 * span_sum * 10 + six_up) / (2 * six_up)
    }
}

/// Aggregate one category's figures in a single pass.
#[verifier::rlimit(60)]
fn pool_stats_for(records: &Vec<GachaRecord>, pt: &str) -> (ps: PoolStats)
    requires
        records@.len() <= u32::MAX,
    ensures
        ps.pool_type@ == pt@,
        pool_stats_ok(ps, records@),
{
    let n = records.len();
    let mut total: u32 = 0;
    let mut six: u32 = 0;
    let mut five: u32 = 0;
    let mut four: u32 = 0;
    let mut six_up: u32 = 0;
    let mut cur: u32 = 0;
    let mut i: usize = 0;
    while i < n
        invariant
            n == records@.len(),
            n <= u32::MAX,
            i <= n,
            total == count_pool(records@.subrange(0, i as int), pt@),
            six == count_pool_rarity(records@.subrange(0, i as int), pt@, 6),
            five == count_pool_rarity(records@.subrange(0, i as int), pt@, 5),
            four == count_pool_rarity(records@.subrange(0, i as int), pt@, 4),
            six_up == count_pool_six_up(records@.subrange(0, i as int), pt@),
            cur == trailing_since_six(records@.subrange(0, i as int), pt@),
        decreases n - i,
    {
        let ghost pre = records@.subrange(0, i as int);
        let ghost post = records@.subrange(0, i + 1);
        proof {
            assert(post.drop_last() =~= pre);
            assert(post.last() == records@[i as int]);
            lemma_pool_counts(pre, pt@);
            assert(pre.len() == i);
        }
        if str_eq(records[i].pool_type.as_str(), pt) {
            total = total + 1;
            if records[i].rarity == 6 {
                six = six + 1;
            } else if records[i].rarity == 5 {
                five = five + 1;
            } else if records[i].rarity == 4 {
                four = four + 1;
            }
            if records[i].rarity >= 6 {
                six_up = six_up + 1;
                cur = 0;
            } else {
                cur = cur + 1;
            }
        }
        i = i + 1;
    }
    proof {
        assert(records@.subrange(0, n as int) =~= records@);
        lemma_pool_counts(records@, pt@);
    }
    let rate: u32 = if total > 0 {
        let t64: u64 = total as u64;
        let s64: u64 = six as u64;
        let r: u64 = (2 * s64 * 1000 + t64) / (2 * t64);
        proof {
            assert(s64 <= t64);
            assert((2 * s64 * 1000 + t64) / (2 * t64) <= 1000) by (nonlinear_arith)
                requires
                    0 < t64 <= u32::MAX as u64,
                    0 <= s64 <= t64,
            ;
        }
        r as u32
    } else {
        0
    };
    let span_sum: u32 = total - cur;
    let avg: u64 = if six_up == 0 {
        0
    } else {
        let s128: u128 = span_sum as u128;
        let l128: u128 = six_up as u128;
        let a: u128 = (2 * s128 * 10 + l128) / (2 * l128);
        proof {
            assert((2 * s128 * 10 + l128) / (2 * l128) <= 20 * s128 + 1) by (nonlinear_arith)
                requires
                    l128 >= 1,
                    s128 >= 0,
            ;
        }
        a as u64
    };
    PoolStats {
        pool_type: pt.to_owned(),
        total_pulls: total,
        six_star_count: six,
        five_star_count: five,
        four_star_count: four,
        three_star_count: total - six - five - four,
        six_star_rate_permille: rate,
        current_pity: cur,
        avg_pity_tenths: avg,
    }
}

/// Some record carries the category.
pub open spec fn pool_occurs(rs: Seq<GachaRecord>, pt: Seq<char>) -> bool {
    exists|k: int| 0 <= k < rs.len() && (#[trigger] rs[k]).pool_type@ == pt
}

/// The category has a statistics entry.
pub open spec fn pool_listed(by_pool: Seq<PoolStats>, pt: Seq<char>) -> bool {
    exists|j: int| 0 <= j < by_pool.len() && (#[trigger] by_pool[j]).pool_type@ == pt
}

/// Every record's pool category has a statistics entry.
pub open spec fn stats_cover(by_pool: Seq<PoolStats>, rs: Seq<GachaRecord>) -> bool {
    forall|k: int| 0 <= k < rs.len() ==> pool_listed(by_pool, (#[trigger] rs[k]).pool_type@)
}

/// The category name occurs in the list.
spec fn listed(names: Seq<String>, pt: Seq<char>) -> bool {
    exists|j: int| 0 <= j < names.len() && (#[trigger] names[j])@ == pt
}

/// Every record among the first `k` has its pool category listed.
spec fn covers(names: Seq<String>, rs: Seq<GachaRecord>, k: int) -> bool {
    forall|m: int| 0 <= m < k ==> listed(names, (#[trigger] rs[m]).pool_type@)
}

fn name_find(names: &Vec<String>, key: &str) -> (r: Option<usize>)
    ensures
        match r {
            Option::Some(i) => i < names@.len() && names@[i as int]@ == key@,
            Option::None => forall|j: int|
                0 <= j < names@.len() ==> (#[trigger] names@[j]@) != key@,
        },
{
    let n = names.len();
    let mut i: usize = 0;
    while i < n
        invariant
            n == names@.len(),
            i <= n,
            forall|j: int| 0 <= j < i ==> (#[trigger] names@[j]@) != key@,
        decreases n - i,
    {
        if str_eq(names[i].as_str(), key) {
            return Option::Some(i);
        }
        i = i + 1;
    }
    Option::None
}

/// Aggregate a player's pull history into per-category statistics.
pub fn compute_stats(data: &GachaData) -> (r: GachaStatsResult)
    requires
        data.records@.len() <= u32::MAX,
    ensures
        r.uid@ == data.uid@,
        r.fetched_at == data.fetched_at,
        r.total_pulls == data.records@.len(),
        forall|j: int|
            0 <= j < r.by_pool@.len() ==> pool_stats_ok(#[trigger] r.by_pool@[j], data.records@),
        forall|j1: int, j2: int|
            0 <= j1 < j2 < r.by_pool@.len() ==> (#[trigger] r.by_pool@[j1].pool_type@) != (
            #[trigger] r.by_pool@[j2].pool_type@),
        forall|j: int|
            0 <= j < r.by_pool@.len() ==> pool_occurs(
                data.records@,
                (#[trigger] r.by_pool@[j]).pool_type@,
            ),
        stats_cover(r.by_pool@, data.records@),
    {
    let n = data.records.len();
    let mut names: Vec<String> = Vec::new();
    let mut k: usize = 0;
    while k < n
        invariant
            n == data.records@.len(),
            k <= n,
            forall|j1: int, j2: int|
                0 <= j1 < j2 < names@.len() ==> (#[trigger] names@[j1]@) != (
                #[trigger] names@[j2]@),
            forall|e: int|
                0 <= e < names@.len() ==> pool_occurs(data.records@, (#[trigger] names@[e])@),
            covers(names@, data.records@, k as int),
        decreases n - k,
    {
        match name_find(&names, data.records[k].pool_type.as_str()) {
            Option::Some(i) => {
                proof {
                    assert(0 <= i < names@.len() && names@[i as int]@ == data.records@[k as int].pool_type@);
                    assert(listed(names@, data.records@[k as int].pool_type@));
                    assert(covers(names@, data.records@, k + 1));
                }
            },
            Option::None => {
                let ghost pre = names@;
                names.push(data.records[k].pool_type.clone());
                proof {
                    assert(names@[pre.len() as int]@ == data.records@[k as int].pool_type@);
                    assert(pool_occurs(data.records@, names@[pre.len() as int]@));
                    assert(forall|e: int|
                        0 <= e < pre.len() ==> names@[e] == #[trigger] pre[e]);
                    assert(listed(names@, data.records@[k as int].pool_type@));
                    assert forall|m: int| 0 <= m < k + 1 implies listed(
                        names@,
                        (#[trigger] data.records@[m]).pool_type@,
                    ) by {
                        if m < k {
                            assert(covers(pre, data.records@, k as int));
                            assert(listed(pre, data.records@[m].pool_type@));
                            let j = choose|j: int|
                                0 <= j < pre.len() && (#[trigger] pre[j])@ == data.records@[m].pool_type@;
                            assert(names@[j] == pre[j]);
                            assert(listed(names@, data.records@[m].pool_type@));
                        }
                    }
                    assert(covers(names@, data.records@, k + 1));
                }
            },
        }
        k = k + 1;
    }
    let mut by_pool: Vec<PoolStats> = Vec::new();
    let mut j: usize = 0;
    let nn = names.len();
    while j < nn
        invariant
            nn == names@.len(),
            j <= nn,
            data.records@.len() <= u32::MAX,
            covers(names@, data.records@, data.records@.len() as int),
            forall|e: int|
                0 <= e < names@.len() ==> pool_occurs(data.records@, (#[trigger] names@[e])@),
            by_pool@.len() == j,
            forall|e: int|
                0 <= e < j ==> pool_stats_ok(#[trigger] by_pool@[e], data.records@)
                    && by_pool@[e].pool_type@ == names@[e]@,
            forall|j1: int, j2: int|
                0 <= j1 < j2 < names@.len() ==> (#[trigger] names@[j1]@) != (
                #[trigger] names@[j2]@),
        decreases nn - j,
    {
        by_pool.push(pool_stats_for(&data.records, names[j].as_str()));
        j = j + 1;
    }
    proof {
        assert forall|k2: int| 0 <= k2 < data.records@.len() implies pool_listed(
            by_pool@,
            (#[trigger] data.records@[k2]).pool_type@,
        ) by {
            assert(covers(names@, data.records@, data.records@.len() as int));
            assert(listed(names@, data.records@[k2].pool_type@));
            let j2 = choose|j2: int|
                0 <= j2 < names@.len() && (#[trigger] names@[j2])@ == data.records@[k2].pool_type@;
            assert(by_pool@[j2].pool_type@ == data.records@[k2].pool_type@);
        }
        assert(stats_cover(by_pool@, data.records@));
        assert forall|j2: int| 0 <= j2 < by_pool@.len() implies pool_occurs(
            data.records@,
            (#[trigger] by_pool@[j2]).pool_type@,
        ) by {
            assert(by_pool@[j2].pool_type@ == names@[j2]@);
            assert(pool_occurs(data.records@, names@[j2]@));
        }
    }
    GachaStatsResult {
        uid: data.uid.clone(),
        total_pulls: n as u32,
        by_pool,
        fetched_at: data.fetched_at,
    }
}

/// One CSV row of a record.
pub open spec fn csv_row_view(r: GachaRecord) -> Seq<char> {
    format_ts_view(r.timestamp as int) + ","@ + csv_escape_view(r.pool_name@) + ","@
        + pool_type_cn_view(r.pool_type@) + ","@ + csv_escape_view(r.item_name@) + ","@ + dec_str(
        r.rarity as int,
    ) + ","@ + (if r.is_new {
        "是"@
    } else {
        "否"@
    }) + ","@ + dec_str(r.pity as int) + "\n"@
}

/// The CSV rows of a record list, in order.
pub open spec fn csv_rows_view(rs: Seq<GachaRecord>) -> Seq<char>
    decreases rs.len(),
{
    if rs.len() == 0 {
        Seq::empty()
    } else {
        csv_rows_view(rs.drop_last()) + csv_row_view(rs.last())
    }
}

fn csv_row(r: &GachaRecord) -> (s: String)
    ensures
        s@ == csv_row_view(*r),
{
    let mut s = String::new();
    let dt = format_ts(r.timestamp);
    s.append(dt.as_str());
    s.append(",");
    let pn = csv_escape(r.pool_name.as_str());
    s.append(pn.as_str());
    s.append(",");
    s.append(pool_type_cn(r.pool_type.as_str()));
    s.append(",");
    let item = csv_escape(r.item_name.as_str());
    s.append(item.as_str());
    s.append(",");
    let rar = u64_to_dec(r.rarity as u64);
    s.append(rar.as_str());
    s.append(",");
    if r.is_new {
        s.append("是");
    } else {
        s.append("否");
    }
    s.append(",");
    let pity = u64_to_dec(r.pity as u64);
    s.append(pity.as_str());
    s.append("\n");
    proof {
        assert(s@ =~= csv_row_view(*r));
    }
    s
}

/// Render a record list as a CSV document: a byte-order mark, a header
/// row, then one row per record.  Writing it out is the caller's job.
pub fn export_csv(records: &Vec<GachaRecord>) -> (s: String)
    ensures
        s@ == "\u{FEFF}时间,卡池,卡池类型,干员/物品,稀有度,是否新干员,水位\n"@ + csv_rows_view(
            records@,
        ),
{
    let mut s = String::new();
    s.append("\u{FEFF}时间,卡池,卡池类型,干员/物品,稀有度,是否新干员,水位\n");
    let n = records.len();
    let mut i: usize = 0;
    while i < n
        invariant
            n == records@.len(),
            i <= n,
            s@ == "\u{FEFF}时间,卡池,卡池类型,干员/物品,稀有度,是否新干员,水位\n"@
                + csv_rows_view(records@.subrange(0, i as int)),
        decreases n - i,
    {
        let row = csv_row(&records[i]);
        s.append(row.as_str());
        proof {
            assert(records@.subrange(0, i + 1).drop_last() =~= records@.subrange(0, i as int));
            assert(records@.subrange(0, i + 1).last() == records@[i as int]);
            assert(s@ =~= "\u{FEFF}时间,卡池,卡池类型,干员/物品,稀有度,是否新干员,水位\n"@
                + csv_rows_view(records@.subrange(0, i + 1)));
        }
        i = i + 1;
    }
    proof {
        assert(records@.subrange(0, n as int) =~= records@);
    }
    s
}

/// The UTF-8 bytes of `https://`.
pub open spec fn https_bytes() -> Seq<u8> {
    seq![104u8, 116u8, 116u8, 112u8, 115u8, 58u8, 47u8, 47u8]
}

fn https_needle() -> (v: Vec<u8>)
    ensures
        v@ == https_bytes(),
{
    let mut v: Vec<u8> = Vec::new();
    v.push(104);
    v.push(116);
    v.push(116);
    v.push(112);
    v.push(115);
    v.push(58);
    v.push(47);
    v.push(47);
    proof {
        assert(v@ =~= https_bytes());
    }
    v
}

/// Characters that end a URL in scanned cache data: quotes, line breaks,
/// NUL and space.
pub open spec fn is_url_delimiter(b: u8) -> bool {
    b == 34 || b == 39 || b == 10 || b == 13 || b == 0 || b == 32
}

/// ASCII whitespace trimmed from a scanned URL's ends.
pub open spec fn is_ascii_ws(b: u8) -> bool {
    b == 9 || b == 10 || b == 13 || b == 32
}

/// Search scanned cache bytes for the authenticated history URL: find the
/// pattern, walk back (at most 512 bytes) to the nearest `https://`, walk
/// forward to the first delimiter (at most 8192 bytes), trim, and accept
/// only an `https://` URL that carries a query string.
///
/// Whatever is returned is a contiguous slice of the input that begins
/// with `https://` and contains a `?`; when the pattern is absent nothing
/// is returned.
pub fn find_url_in_bytes(bytes: &[u8], url_pattern: &[u8]) -> (r: Option<Vec<u8>>)
    ensures
        !crate::text::bcontains(bytes@, url_pattern@) ==> r is None,
        r matches Option::Some(u) ==> exists|a: int, b: int|
            {
                &&& 0 <= a <= b <= bytes@.len()
                &&& u@ == bytes@.subrange(a, b)
                &&& u@.len() >= 8
                &&& u@.subrange(0, 8) == https_bytes()
                &&& u@.contains(63u8)
            },
{
    let n = bytes.len();
    let pattern_pos = match crate::text::bfind_first(bytes, url_pattern) {
        Option::None => {
            return Option::None;
        },
        Option::Some(p) => p,
    };
    let search_start: usize = if pattern_pos > 512 {
        pattern_pos - 512
    } else {
        0
    };
    let needle = https_needle();
    let url_start = match crate::text::brfind_within(
        bytes,
        needle.as_slice(),
        search_start,
        pattern_pos,
    ) {
        Option::None => {
            return Option::None;
        },
        Option::Some(i) => i,
    };
    // Forward scan for the first delimiter, capped at 8192 bytes.
    let mut url_end: usize = url_start;
    let cap: usize = if n - url_start > 8192 {
        url_start + 8192
    } else {
        n
    };
    while url_end < cap && !(bytes[url_end] == 34 || bytes[url_end] == 39 || bytes[url_end] == 10
        || bytes[url_end] == 13 || bytes[url_end] == 0 || bytes[url_end] == 32)
        invariant
            url_start <= url_end <= cap <= n == bytes@.len(),
        decreases cap - url_end,
    {
        url_end = url_end + 1;
    }
    // Trim trailing ASCII whitespace.
    let mut e: usize = url_end;
    while e > url_start && (bytes[e - 1] == 9 || bytes[e - 1] == 10 || bytes[e - 1] == 13 || bytes[
        e - 1] == 32)
        invariant
            url_start <= e <= url_end <= n == bytes@.len(),
        decreases e,
    {
        e = e - 1;
    }
    if e - url_start < 8 {
        return Option::None;
    }
    // The candidate must be an https URL carrying a query string.
    let mut has_query = false;
    let mut q: usize = url_start;
    while q < e
        invariant
            url_start <= q <= e <= n == bytes@.len(),
            has_query ==> exists|w: int|
                url_start <= w < e && bytes@[w] == 63u8,
        decreases e - q,
    {
        if bytes[q] == 63 {
            has_query = true;
        }
        q = q + 1;
    }
    if !has_query {
        return Option::None;
    }
    let mut out: Vec<u8> = Vec::new();
    let mut i: usize = url_start;
    while i < e
        invariant
            url_start <= i <= e <= n == bytes@.len(),
            out@ == bytes@.subrange(url_start as int, i as int),
        decreases e - i,
    {
        out.push(bytes[i]);
        proof {
            assert(out@ =~= bytes@.subrange(url_start as int, i + 1));
        }
        i = i + 1;
    }
    proof {
        assert(out@ == bytes@.subrange(url_start as int, e as int));
        assert(crate::text::bmatch_at(bytes@, https_bytes(), url_start as int));
        assert forall|k: int| 0 <= k < 8 implies out@.subrange(0, 8)[k] == https_bytes()[k] by {
            assert(out@[k] == bytes@[url_start + k]);
            assert(bytes@.subrange(url_start as int, url_start + 8)[k] == bytes@[url_start + k]);
        }
        assert(out@.subrange(0, 8) =~= https_bytes());
        let w = choose|w: int| url_start <= w < e && bytes@[w] == 63u8;
        assert(out@[w - url_start] == 63u8);
        assert(out@.contains(63u8));
    }
    Option::Some(out)
}

/// A maximal `&`-free run of the query string starting at `a` and ending
/// at `b`.
pub open spec fn is_segment(url: Seq<char>, qstart: int, a: int, b: int) -> bool {
    &&& qstart <= a <= b <= url.len()
    &&& (a == qstart || url[a - 1] == '&')
    &&& (b == url.len() || url[b] == '&')
    &&& forall|m: int| a <= m < b ==> url[m] != '&'
}

/// The segment reads `param=value` for the given parameter name, with a
/// non-empty value.
pub open spec fn segment_matches(url: Seq<char>, a: int, b: int, param: Seq<char>) -> bool {
    &&& b - a >= param.len() + 2
    &&& url.subrange(a, a + param.len()) == param
    &&& url[a + param.len()] == '='
    &&& !param.contains('=')
}

/// Pull a named parameter's value out of a URL's query string.  A value
/// handed back always comes from a `param=value` segment after the first
/// `?`; a URL without a query string yields nothing.
pub fn extract_query_param(url: &str, param: &str) -> (r: Option<String>)
    ensures
        r matches Option::Some(v) ==> exists|q: int, a: int, b: int|
            {
                &&& 0 <= q < url@.len() && url@[q] == '?'
                &&& is_segment(url@, q + 1, a, b)
                &&& segment_matches(url@, a, b, param@)
                &&& v@ == url@.subrange(a + param@.len(), b).drop_first()
            },
        !url@.contains('?') ==> r is None,
{
    let n = url.unicode_len();
    let mut q: usize = 0;
    loop
        invariant
            n == url@.len(),
            q <= n,
            forall|m: int| 0 <= m < q ==> url@[m] != '?',
        ensures
            q < n && url@[q as int] == '?',
        decreases n - q,
    {
        if q >= n {
            proof {
                if url@.contains('?') {
                    let m = choose|m: int| 0 <= m < url@.len() && url@[m] == '?';
                }
            }
            return Option::None;
        }
        if url.get_char(q) == '?' {
            break ;
        }
        q = q + 1;
    }
    if crate::text::contains_char(param, '=') {
        return Option::None;
    }
    let plen = param.unicode_len();
    let mut a: usize = q + 1;
    while a <= n
        invariant
            n == url@.len(),
            q < n,
            url@[q as int] == '?',
            q + 1 <= a <= n + 1,
            a <= n ==> (a == q + 1 || url@[a - 1] == '&'),
            plen == param@.len(),
            !param@.contains('='),
        decreases n + 1 - a,
    {
        // Find the end of this segment.
        let mut b: usize = a;
        while b < n && url.get_char(b) != '&'
            invariant
                n == url@.len(),
                a <= b <= n,
                forall|m: int| a <= m < b ==> url@[m] != '&',
            decreases n - b,
        {
            b = b + 1;
        }
        if b - a >= plen && (b - a) - plen >= 2 {
            let key = url.substring_char(a, a + plen);
            if crate::text::str_eq(key, param) && url.get_char(a + plen) == '=' {
                let value = url.substring_char(a + plen + 1, b);
                let out = value.to_owned();
                proof {
                    assert(is_segment(url@, q + 1, a as int, b as int));
                    assert(segment_matches(url@, a as int, b as int, param@));
                    assert(out@ =~= url@.subrange(a + param@.len(), b as int).drop_first());
                }
                return Option::Some(out);
            }
        }
        if b == n {
            return Option::None;
        }
        a = b + 1;
    }
    Option::None
}

/// Interpret a remote API reply's status field: zero is success, anything
/// else carries the reply's message, or the caller's fallback text.
pub fn check_status(status: i64, msg: Option<String>, message: Option<String>, default_msg: &str)
    -> (r: Result<(), String>)
    ensures
        r is Ok <==> status == 0,
        r matches Result::Err(m) ==> m@ == (match msg {
            Option::Some(s) => s@,
            Option::None => match message {
                Option::Some(s) => s@,
                Option::None => default_msg@,
            },
        }),
{
    if status == 0 {
        Result::Ok(())
    } else {
        match msg {
            Option::Some(s) => Result::Err(s),
            Option::None => match message {
                Option::Some(s) => Result::Err(s),
                Option::None => Result::Err(default_msg.to_owned()),
            },
        }
    }
}

} // verus!
