//! Self-update: release tags, version order, the release asset for the host,
//! and the messages of the command-line update.

use vstd::prelude::*;
use crate::text;
use crate::util;
use crate::engine;
use crate::json;

verus! {

/// The view of an optional string slice.
pub open spec fn opt_str(o: Option<&str>) -> Option<Seq<char>> {
    match o {
        Some(s) => Some(s@),
        None => None,
    }
}

/// The repository that releases are fetched from: the one configured at
/// build time, else the project's own.
pub fn github_repo(configured: Option<&'static str>) -> (r: &'static str)
    ensures
        r@ == match configured {
            Some(c) => c@,
            None => "imjulianeral/nitrate"@,
        },
{
    match configured {
        Some(c) => c,
        None => "imjulianeral/nitrate",
    }
}

/// The release name of an operating system, by Rust's `target_os`.
pub open spec fn os_slug(target_os: Seq<char>) -> Option<Seq<char>> {
    if target_os == "linux"@ {
        Some("linux"@)
    } else if target_os == "macos"@ {
        Some("macos"@)
    } else if target_os == "windows"@ {
        Some("windows"@)
    } else {
        None
    }
}

/// The release name of a processor architecture, by Rust's `target_arch`.
pub open spec fn arch_slug(target_arch: Seq<char>) -> Option<Seq<char>> {
    if target_arch == "x86_64"@ {
        Some("x64"@)
    } else if target_arch == "aarch64"@ {
        Some("arm64"@)
    } else {
        None
    }
}

/// The operating system as release assets name it; `None` where no asset is built.
pub fn host_os(target_os: &str) -> (r: Option<&'static str>)
    ensures
        opt_str(r) == os_slug(target_os@),
{
    let t = text::chars_of(target_os);
    if text::eq_chars(&t, &text::chars_of("linux")) {
        Some("linux")
    } else if text::eq_chars(&t, &text::chars_of("macos")) {
        Some("macos")
    } else if text::eq_chars(&t, &text::chars_of("windows")) {
        Some("windows")
    } else {
        None
    }
}

/// The architecture as release assets name it; `None` where no asset is built.
pub fn host_arch(target_arch: &str) -> (r: Option<&'static str>)
    ensures
        opt_str(r) == arch_slug(target_arch@),
{
    let t = text::chars_of(target_arch);
    if text::eq_chars(&t, &text::chars_of("x86_64")) {
        Some("x64")
    } else if text::eq_chars(&t, &text::chars_of("aarch64")) {
        Some("arm64")
    } else {
        None
    }
}

/// `nitrate-{os}-{arch}`, with `.exe` on Windows.
pub open spec fn asset_for(os: Option<Seq<char>>, arch: Option<Seq<char>>) -> Option<Seq<char>> {
    match (os, arch) {
        (Some(o), Some(a)) => Some(
            "nitrate-"@ + o + "-"@ + a + if o == "windows"@ {
                ".exe"@
            } else {
                ""@
            },
        ),
        _ => None,
    }
}

/// The release asset for a host, given its release names (see `host_os`, `host_arch`).
pub fn asset_name(os: Option<&str>, arch: Option<&str>) -> (r: Option<String>)
    ensures
        engine::opt_view(r) == asset_for(opt_str(os), opt_str(arch)),
{
    match (os, arch) {
        (Some(o), Some(a)) => {
            let oc = text::chars_of(o);
            let mut out: Vec<char> = Vec::new();
            text::push_str(&mut out, "nitrate-");
            text::push_chars(&mut out, &oc);
            text::push_str(&mut out, "-");
            text::push_str(&mut out, a);
            let win = text::eq_chars(&oc, &text::chars_of("windows"));
            if win {
                text::push_str(&mut out, ".exe");
            } else {
                text::push_str(&mut out, "");
            }
            Some(text::string_of(&out))
        },
        _ => None,
    }
}

/// The release archive for a host, which holds the program and its `tools`
/// directory: `nitrate-{os}-{arch}.tar.gz`, or `.zip` on Windows.
pub open spec fn archive_for(os: Option<Seq<char>>, arch: Option<Seq<char>>) -> Option<Seq<char>> {
    match (os, arch) {
        (Some(o), Some(a)) => Some(
            "nitrate-"@ + o + "-"@ + a + if o == "windows"@ {
                ".zip"@
            } else {
                ".tar.gz"@
            },
        ),
        _ => None,
    }
}

/// The release archive for a host, given its release names (see `host_os`, `host_arch`).
pub fn archive_name(os: Option<&str>, arch: Option<&str>) -> (r: Option<String>)
    ensures
        engine::opt_view(r) == archive_for(opt_str(os), opt_str(arch)),
{
    match (os, arch) {
        (Some(o), Some(a)) => {
            let oc = text::chars_of(o);
            let mut out: Vec<char> = Vec::new();
            text::push_str(&mut out, "nitrate-");
            text::push_chars(&mut out, &oc);
            text::push_str(&mut out, "-");
            text::push_str(&mut out, a);
            if text::eq_chars(&oc, &text::chars_of("windows")) {
                text::push_str(&mut out, ".zip");
            } else {
                text::push_str(&mut out, ".tar.gz");
            }
            Some(text::string_of(&out))
        },
        _ => None,
    }
}

/// Every character is an ASCII digit.
pub open spec fn all_digits(d: Seq<char>) -> bool {
    forall|i: int| 0 <= i < d.len() ==> util::is_digit(#[trigger] d[i])
}

/// The text after one leading `+`, if there is one.
pub open spec fn unsigned_digits(s: Seq<char>) -> Seq<char> {
    if s.len() > 0 && s[0] == '+' {
        s.skip(1)
    } else {
        s
    }
}

/// `u64::from_str`: an optional `+`, then one or more ASCII digits whose value fits.
pub open spec fn parsed_u64(s: Seq<char>) -> Option<u64> {
    let d = unsigned_digits(s);
    if d.len() > 0 && all_digits(d) && util::digits_value(d) <= u64::MAX {
        Some(util::digits_value(d) as u64)
    } else {
        None
    }
}

/// The text before the first `.`.
pub open spec fn first_field(s: Seq<char>) -> Seq<char> {
    s.take(text::count_while(s, util::not_dot_pred()) as int)
}

/// The text after the first `.`, if there is one.
pub open spec fn after_dot(s: Seq<char>) -> Option<Seq<char>> {
    let k = text::count_while(s, util::not_dot_pred()) as int;
    if k < s.len() {
        Some(s.skip(k + 1))
    } else {
        None
    }
}

/// The field after `rest`, or `0` where the version ends.
pub open spec fn next_field(rest: Option<Seq<char>>) -> Seq<char> {
    match rest {
        Some(r) => first_field(r),
        None => "0"@,
    }
}

pub open spec fn next_rest(rest: Option<Seq<char>>) -> Option<Seq<char>> {
    match rest {
        Some(r) => after_dot(r),
        None => None,
    }
}

/// A version `major[.minor[.patch]]`, trimmed and with leading `v`s removed;
/// missing parts count as 0 and parts after the third are ignored.
pub open spec fn ver_of(s: Seq<char>) -> Option<(u64, u64, u64)> {
    let t = text::stripped_prefix(text::trimmed(s), "v"@);
    let r1 = after_dot(t);
    let r2 = next_rest(r1);
    match (parsed_u64(first_field(t)), parsed_u64(next_field(r1)), parsed_u64(next_field(r2))) {
        (Some(a), Some(b), Some(c)) => Some((a, b, c)),
        _ => None,
    }
}

/// `a` comes after `b` in the order of major, then minor, then patch.
pub open spec fn ver_gt(a: (u64, u64, u64), b: (u64, u64, u64)) -> bool {
    a.0 > b.0 || (a.0 == b.0 && (a.1 > b.1 || (a.1 == b.1 && a.2 > b.2)))
}

/// `latest` is a later version than `current`; false where either does not read as one.
pub open spec fn newer(latest: Seq<char>, current: Seq<char>) -> bool {
    match (ver_of(latest), ver_of(current)) {
        (Some(a), Some(b)) => ver_gt(a, b),
        _ => false,
    }
}

proof fn lemma_digits_prefix(s: Seq<char>, k: int)
    requires
        0 <= k <= s.len(),
    ensures
        util::digits_value(s.take(k)) <= util::digits_value(s),
    decreases s.len(),
{
    if k < s.len() {
        let t = s.drop_last();
        assert(t.take(k) =~= s.take(k));
        lemma_digits_prefix(t, k);
    } else {
        assert(s.take(k) =~= s);
    }
}

/// The text before the first `.` and the text after it (see `first_field`, `after_dot`).
fn split_dot(v: &[char]) -> (r: (Vec<char>, Option<Vec<char>>))
    ensures
        r.0@ == first_field(v@),
        match r.1 {
            Some(x) => after_dot(v@) == Some(x@),
            None => after_dot(v@) is None,
        },
{
    let mut k: usize = 0;
    while k < v.len() && v[k] != '.'
        invariant
            k <= v.len(),
            forall|j: int| 0 <= j < k ==> (util::not_dot_pred())(#[trigger] v@[j]),
        decreases v.len() - k,
    {
        k = k + 1;
    }
    proof {
        text::lemma_count_while(v@, util::not_dot_pred(), k as int);
    }
    let first = text::slice_vec(v, 0, k);
    if k < v.len() {
        (first, Some(text::slice_vec(v, k + 1, v.len())))
    } else {
        (first, None)
    }
}

/// The next field of a version and what follows it (see `next_field`, `next_rest`).
fn split_next(rest: Option<Vec<char>>) -> (r: (Vec<char>, Option<Vec<char>>))
    ensures
        r.0@ == next_field(match rest {
            Some(x) => Some(x@),
            None => None,
        }),
        match r.1 {
            Some(x) => next_rest(match rest {
                Some(y) => Some(y@),
                None => None,
            }) == Some(x@),
            None => next_rest(match rest {
                Some(y) => Some(y@),
                None => None,
            }) is None,
        },
{
    match rest {
        Some(x) => split_dot(&x),
        None => {
            let z = text::chars_of("0");
            (z, None)
        },
    }
}

/// `u64::from_str` (see `parsed_u64`).
pub fn parse_u64(v: &[char]) -> (r: Option<u64>)
    ensures
        r == parsed_u64(v@),
{
    let st: usize = if v.len() > 0 && v[0] == '+' {
        1
    } else {
        0
    };
    let ghost d = unsigned_digits(v@);
    assert(d =~= v@.skip(st as int));
    if st == v.len() {
        return None;
    }
    let mut acc: u64 = 0;
    let mut i: usize = st;
    while i < v.len()
        invariant
            st <= i <= v.len(),
            st < v.len(),
            d == v@.skip(st as int),
            d == unsigned_digits(v@),
            forall|j: int| 0 <= j < i - st ==> util::is_digit(#[trigger] d[j]),
            acc == util::digits_value(d.take(i - st)),
        decreases v.len() - i,
    {
        let c = v[i];
        if !('0' <= c && c <= '9') {
            assert(d[i - st] == v@[i as int]);
            assert(!util::is_digit(d[i - st]));
            return None;
        }
        let dv = (c as u32 - '0' as u32) as u64;
        let ghost pre = d.take(i - st);
        let ghost nxt = d.take(i - st + 1);
        assert(nxt.drop_last() =~= pre);
        assert(nxt.last() == c);
        assert(util::digits_value(nxt) == util::digits_value(pre) * 10 + dv);
        if acc > (u64::MAX - dv) / 10 {
            proof {
                assert(acc * 10 + dv > u64::MAX) by (nonlinear_arith)
                    requires
                        acc > (u64::MAX - dv) / 10,
                        dv <= 9,
                ;
                lemma_digits_prefix(d, i - st + 1);
            }
            return None;
        }
        assert(acc * 10 + dv <= u64::MAX) by (nonlinear_arith)
            requires
                acc <= (u64::MAX - dv) / 10,
                dv <= 9,
        ;
        acc = acc * 10 + dv;
        i = i + 1;
    }
    assert(d.take(i - st) =~= d);
    Some(acc)
}

/// A version as three numbers (see `ver_of`).
pub fn parse_ver(s: &str) -> (r: Option<(u64, u64, u64)>)
    ensures
        r == ver_of(s@),
{
    let t = text::strip_all_prefix(&text::trim(&text::chars_of(s)), &text::chars_of("v"));
    let (p1, r1) = split_dot(&t);
    let (p2, r2) = split_next(r1);
    let (p3, _r3) = split_next(r2);
    let a = parse_u64(&p1);
    let b = parse_u64(&p2);
    let c = parse_u64(&p3);
    match (a, b, c) {
        (Some(a), Some(b), Some(c)) => Some((a, b, c)),
        _ => None,
    }
}

/// Whether `latest` names a later version than `current` (see `newer`).
pub fn version_newer(latest: &str, current: &str) -> (r: bool)
    ensures
        r == newer(latest@, current@),
{
    match (parse_ver(latest), parse_ver(current)) {
        (Some(a), Some(b)) => a.0 > b.0 || (a.0 == b.0 && (a.1 > b.1 || (a.1 == b.1 && a.2
            > b.2))),
        _ => false,
    }
}

proof fn lemma_dot_split(a: Seq<char>, r: Seq<char>)
    requires
        all_digits(a),
    ensures
        first_field(a + "."@ + r) == a,
        after_dot(a + "."@ + r) == Some(r),
        first_field(a) == a,
        after_dot(a) is None,
{
    reveal_strlit(".");
    let t = a + "."@ + r;
    assert("."@.len() == 1 && "."@[0] == '.');
    assert forall|j: int| 0 <= j < a.len() implies (util::not_dot_pred())(#[trigger] t[j]) by {
        assert(t[j] == a[j]);
        assert(util::is_digit(a[j]));
    }
    assert(t[a.len() as int] == '.');
    text::lemma_count_while(t, util::not_dot_pred(), a.len() as int);
    assert(t.take(a.len() as int) =~= a);
    assert(t.skip(a.len() as int + 1) =~= r);
    assert forall|j: int| 0 <= j < a.len() implies (util::not_dot_pred())(#[trigger] a[j]) by {
        assert(util::is_digit(a[j]));
    }
    text::lemma_count_while(a, util::not_dot_pred(), a.len() as int);
    assert(a.take(a.len() as int) =~= a);
}

/// A version written `major.minor.patch` in decimal digits reads as those
/// three numbers, in that order.
pub proof fn law_version_fields_in_order(x: Seq<char>, y: Seq<char>, z: Seq<char>)
    requires
        x.len() > 0 && y.len() > 0 && z.len() > 0,
        all_digits(x) && all_digits(y) && all_digits(z),
        util::digits_value(x) <= u64::MAX,
        util::digits_value(y) <= u64::MAX,
        util::digits_value(z) <= u64::MAX,
    ensures
        ver_of(x + "."@ + y + "."@ + z) == Some(
            (util::digits_value(x) as u64, util::digits_value(y) as u64, util::digits_value(z) as u64),
        ),
{
    reveal_strlit(".");
    reveal_strlit("v");
    let r1 = y + "."@ + z;
    let s = x + "."@ + y + "."@ + z;
    assert(s =~= x + "."@ + r1);
    assert(s[0] == x[0]);
    assert(util::is_digit(x[0]));
    assert(s[s.len() - 1] == z[z.len() - 1]);
    assert(util::is_digit(z[z.len() - 1]));
    assert(!text::is_ws(s[0]));
    assert(!text::is_ws(s.last()));
    assert(text::count_while(s, text::ws_pred()) == 0);
    assert(s.skip(0) =~= s);
    assert(text::count_while_back(s, text::ws_pred()) == 0);
    assert(s.take(s.len() as int) =~= s);
    assert(text::trimmed(s) == s);
    assert(!"v"@.is_prefix_of(s));
    assert(text::stripped_prefix(s, "v"@) == s);
    lemma_dot_split(x, r1);
    lemma_dot_split(y, z);
    lemma_dot_split(z, Seq::<char>::empty());
    assert(next_field(after_dot(s)) == y);
    assert(next_rest(after_dot(s)) == Some(z));
    assert(next_field(Some(z)) == z);
    assert(unsigned_digits(x) == x);
    assert(unsigned_digits(y) == y);
    assert(unsigned_digits(z) == z);
}

/// A version is newer exactly when both read as versions and its major
/// number is greater, or the major numbers agree and its minor number is
/// greater, or both agree and its patch number is greater: a greater minor
/// wins whatever the patches are.
pub proof fn law_newer_is_release_order(latest: Seq<char>, current: Seq<char>)
    ensures
        newer(latest, current) <==> (ver_of(latest) is Some && ver_of(current) is Some && ({
            let (lmaj, lmin, lpat) = ver_of(latest)->Some_0;
            let (cmaj, cmin, cpat) = ver_of(current)->Some_0;
            ||| lmaj > cmaj
            ||| lmaj == cmaj && lmin > cmin
            ||| lmaj == cmaj && lmin == cmin && lpat > cpat
        })),
        (ver_of(latest) is Some && ver_of(current) is Some && ver_of(latest)->Some_0.0 == ver_of(
            current,
        )->Some_0.0 && ver_of(latest)->Some_0.1 > ver_of(current)->Some_0.1) ==> newer(latest, current),
{
}

/// No version is newer than itself.
pub proof fn law_newer_irreflexive(v: Seq<char>)
    ensures
        !newer(v, v),
{
}

/// Of two versions at most one is newer than the other.
pub proof fn law_newer_asymmetric(a: Seq<char>, b: Seq<char>)
    ensures
        newer(a, b) ==> !newer(b, a),
{
}

/// Being newer carries over: a version newer than one newer than a third is newer than the third.
pub proof fn law_newer_transitive(a: Seq<char>, b: Seq<char>, c: Seq<char>)
    ensures
        newer(a, b) && newer(b, c) ==> newer(a, c),
{
}

/// A release tag cleaned to a version: trimmed, leading `v`s removed; `None`
/// where nothing is left or there was no tag.
pub open spec fn clean_tag(tag: Option<Seq<char>>) -> Option<Seq<char>> {
    match tag {
        Some(t) => {
            let c = text::stripped_prefix(text::trimmed(t), "v"@);
            if c.len() == 0 {
                None
            } else {
                Some(c)
            }
        },
        None => None,
    }
}

/// The version that a release's `tag_name` names (see `clean_tag`).
pub fn release_tag(tag: Option<String>) -> (r: Option<String>)
    ensures
        engine::opt_view(r) == clean_tag(engine::opt_view(tag)),
{
    match tag {
        Some(t) => {
            let c = text::strip_all_prefix(&text::trim(&text::chars_of(t.as_str())), &text::chars_of("v"));
            if c.len() == 0 {
                None
            } else {
                Some(text::string_of(&c))
            }
        },
        None => None,
    }
}

/// The version of the latest release, from the body of GitHub's release API.
pub fn parse_tag(json: &str) -> (r: Option<String>)
    ensures
        engine::opt_view(r) == clean_tag(json::string_member(json@, "tag_name"@)),
{
    release_tag(json::string_field(json, "tag_name"))
}

/// The latest version from a release API body, or the error that there is none.
pub fn latest_version_from(body: &str) -> (r: Result<String, String>)
    ensures
        match r {
            Ok(v) => clean_tag(json::string_member(body@, "tag_name"@)) == Some(v@),
            Err(e) => clean_tag(json::string_member(body@, "tag_name"@)) is None && e@ == "NO RELEASE TAG"@,
        },
{
    match parse_tag(body) {
        Some(v) => Ok(v),
        None => Err(text::owned("NO RELEASE TAG")),
    }
}

/// The address of the latest release in GitHub's API.
pub fn release_api_url(repo: &str) -> (r: String)
    ensures
        r@ == "https://api.github.com/repos/"@ + repo@ + "/releases/latest"@,
{
    let mut out: Vec<char> = Vec::new();
    text::push_str(&mut out, "https://api.github.com/repos/");
    text::push_str(&mut out, repo);
    text::push_str(&mut out, "/releases/latest");
    text::string_of(&out)
}

/// The download address of an asset of the latest release.
pub fn release_download_url(repo: &str, asset: &str) -> (r: String)
    ensures
        r@ == "https://github.com/"@ + repo@ + "/releases/latest/download/"@ + asset@,
{
    let mut out: Vec<char> = Vec::new();
    text::push_str(&mut out, "https://github.com/");
    text::push_str(&mut out, repo);
    text::push_str(&mut out, "/releases/latest/download/");
    text::push_str(&mut out, asset);
    text::string_of(&out)
}

/// The file name a downloaded asset is kept under until it replaces the program.
pub fn download_file_name(pid: u32, asset: &str) -> (r: String)
    ensures
        r@ == "nitrate-update-"@ + text::dec(pid as nat) + "-"@ + asset@,
{
    let mut out: Vec<char> = Vec::new();
    text::push_str(&mut out, "nitrate-update-");
    text::push_dec(&mut out, pid as u64);
    text::push_str(&mut out, "-");
    text::push_str(&mut out, asset);
    text::string_of(&out)
}

/// What the HTTP client's run gives: its output, or its error output trimmed.
pub fn http_reply(success: bool, stdout: String, stderr: &str) -> (r: Result<String, String>)
    ensures
        success ==> r == Ok::<String, String>(stdout),
        !success ==> r is Err && r->Err_0@ == "HTTP  "@ + text::trimmed(stderr@),
{
    if success {
        Ok(stdout)
    } else {
        let mut out: Vec<char> = Vec::new();
        text::push_str(&mut out, "HTTP  ");
        text::push_chars(&mut out, &text::trim(&text::chars_of(stderr)));
        Err(text::string_of(&out))
    }
}

/// Whether a download went through: the client succeeded and the file is there.
pub fn download_outcome(success: bool, is_file: bool) -> (r: Result<(), String>)
    ensures
        success && is_file ==> r is Ok,
        !success ==> r is Err && r->Err_0@ == "DOWNLOAD FAILED"@,
        success && !is_file ==> r is Err && r->Err_0@ == "DOWNLOAD EMPTY"@,
{
    if !success {
        Err(text::owned("DOWNLOAD FAILED"))
    } else if !is_file {
        Err(text::owned("DOWNLOAD EMPTY"))
    } else {
        Ok(())
    }
}

/// What the command-line update does once the latest version is known.
pub enum CliUpdate {
    /// Nothing to install; the message says so.
    Current(String),
    /// A newer release is to be installed.
    Install,
}

/// Installs only a newer release; otherwise reports the running version as current.
pub fn plan_cli_update(latest: &str, current: &str) -> (r: CliUpdate)
    ensures
        newer(latest@, current@) ==> r is Install,
        !newer(latest@, current@) ==> r is Current && r->Current_0@ == "NITRATE  "@ + current@
            + "  already current"@,
{
    if version_newer(latest, current) {
        CliUpdate::Install
    } else {
        let mut out: Vec<char> = Vec::new();
        text::push_str(&mut out, "NITRATE  ");
        text::push_str(&mut out, current);
        text::push_str(&mut out, "  already current");
        CliUpdate::Current(text::string_of(&out))
    }
}

/// The report of an installed update: the versions and where it was written.
pub fn installed_report(current: &str, latest: &str, dest: &str) -> (r: String)
    ensures
        r@ == "NITRATE  "@ + current@ + " -> "@ + latest@ + "\nWRITE  "@ + dest@,
{
    let mut out: Vec<char> = Vec::new();
    text::push_str(&mut out, "NITRATE  ");
    text::push_str(&mut out, current);
    text::push_str(&mut out, " -> ");
    text::push_str(&mut out, latest);
    text::push_str(&mut out, "\nWRITE  ");
    text::push_str(&mut out, dest);
    text::string_of(&out)
}

} // verus!
