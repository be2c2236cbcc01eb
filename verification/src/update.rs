//! Release versions and the update decision made on the latest release.
use vstd::prelude::*;

use crate::text::{
    concat, ends_with, has_suffix, owned, parse_u64, parse_u64_spec, split_char, split_on,
    strip_leading, strip_leading_char, views,
};

verus! {

/// What the latest published release offers.
pub struct UpdateInfo {
    pub version: String,
    pub download_url: String,
    pub html_url: String,
}

/// One downloadable file attached to a release.
pub struct GitHubAsset {
    pub name: String,
    pub browser_download_url: String,
}

/// The fields of a release that the update decision reads.
pub struct GitHubRelease {
    pub tag_name: String,
    pub html_url: String,
    pub assets: Vec<GitHubAsset>,
}

// ───────────────────────────── specifications ─────────────────────────────
/// The pieces that parse as `u64`, in order; the others are dropped.
pub open spec fn numeric_parts(pieces: Seq<Seq<char>>) -> Seq<u64>
    decreases pieces.len(),
{
    if pieces.len() == 0 {
        Seq::<u64>::empty()
    } else {
        let r = numeric_parts(pieces.drop_last());
        match parse_u64_spec(pieces.last()) {
            Some(v) => r.push(v),
            None => r,
        }
    }
}

/// The numeric components of a version string such as `1.10.2`.
pub open spec fn version_parts(s: Seq<char>) -> Seq<u64> {
    numeric_parts(split_on(s, '.'))
}

/// Component `i` of a version, a missing component counting as `0`.
pub open spec fn component(v: Seq<u64>, i: int) -> u64 {
    if 0 <= i < v.len() {
        v[i]
    } else {
        0
    }
}

/// The longer of two lengths.
pub open spec fn max_len(a: Seq<u64>, b: Seq<u64>) -> int {
    if a.len() >= b.len() {
        a.len() as int
    } else {
        b.len() as int
    }
}

/// Versions `l` and `c` agree on every component before `k`.
pub open spec fn agree_before(l: Seq<u64>, c: Seq<u64>, k: int) -> bool {
    forall|j: int| 0 <= j < k ==> #[trigger] component(l, j) == component(c, j)
}

/// `l` is `c` or later in the first component in which they differ
/// (a missing component counts as `0`).
pub open spec fn parts_newer(l: Seq<u64>, c: Seq<u64>) -> bool {
    exists|k: int|
        0 <= k < max_len(l, c) && agree_before(l, c, k) && #[trigger] component(l, k) > component(
            c,
            k,
        )
}

/// The version string `latest` denotes a later version than `current`.
pub open spec fn version_newer(latest: Seq<char>, current: Seq<char>) -> bool {
    parts_newer(version_parts(latest), version_parts(current))
}

/// The download offered for a release: the first asset whose name ends in
/// `.dmg`, else the release page.
pub open spec fn release_download(assets: Seq<GitHubAsset>, page: Seq<char>) -> Seq<char>
    decreases assets.len(),
{
    if assets.len() == 0 {
        page
    } else if has_suffix(assets[0].name@, ".dmg"@) {
        assets[0].browser_download_url@
    } else {
        release_download(assets.drop_first(), page)
    }
}

// ───────────────────────────── implementation ─────────────────────────────
/// The numeric components of `s`.
pub fn parse_version(s: &str) -> (r: Vec<u64>)
    ensures
        r@ == version_parts(s@),
{
    let pieces = split_char(s, '.');
    let ghost ps = views(pieces@);
    let mut r: Vec<u64> = Vec::new();
    assert(ps.take(0) =~= Seq::<Seq<char>>::empty());
    for i in 0..pieces.len()
        invariant
            ps == views(pieces@),
            ps.len() == pieces.len(),
            r@ == numeric_parts(ps.take(i as int)),
    {
        assert(ps.take(i + 1).drop_last() =~= ps.take(i as int));
        assert(ps.take(i + 1).last() == pieces@[i as int]@);
        match parse_u64(pieces[i].as_str()) {
            Some(v) => r.push(v),
            None => {},
        }
    }
    assert(ps.take(pieces.len() as int) =~= ps);
    r
}

/// Component `i` of `v`, `0` past its end.
fn component_at(v: &Vec<u64>, i: usize) -> (r: u64)
    ensures
        r == component(v@, i as int),
{
    if i < v.len() {
        v[i]
    } else {
        0
    }
}

/// Whether version `latest` is newer than version `current`, comparing their
/// numeric components from the left; components that are not numbers are
/// ignored and missing ones count as `0`.
pub fn is_newer(latest: &str, current: &str) -> (r: bool)
    ensures
        r == version_newer(latest@, current@),
{
    let l = parse_version(latest);
    let c = parse_version(current);
    let n = if l.len() >= c.len() {
        l.len()
    } else {
        c.len()
    };
    for i in 0..n
        invariant
            n == max_len(l@, c@),
            l@ == version_parts(latest@),
            c@ == version_parts(current@),
            agree_before(l@, c@, i as int),
    {
        let lv = component_at(&l, i);
        let cv = component_at(&c, i);
        if lv > cv {
            assert(component(l@, i as int) > component(c@, i as int));
            return true;
        }
        if lv < cv {
            proof {
                assert forall|k: int|
                    0 <= k < max_len(l@, c@) && agree_before(l@, c@, k) implies !(#[trigger] component(
                    l@,
                    k,
                ) > component(c@, k)) by {
                    if k > i {
                        assert(component(l@, i as int) == component(c@, i as int));
                    }
                }
            }
            return false;
        }
        assert(agree_before(l@, c@, i + 1));
    }
    proof {
        assert forall|k: int|
            0 <= k < max_len(l@, c@) && agree_before(l@, c@, k) implies !(#[trigger] component(
            l@,
            k,
        ) > component(c@, k)) by {
            assert(component(l@, k) == component(c@, k));
        }
    }
    false
}

/// The download that `release_download` picks.
fn pick_download(assets: &Vec<GitHubAsset>, page: &String) -> (r: String)
    ensures
        r@ == release_download(assets@, page@),
{
    let mut i: usize = 0;
    assert(assets@.skip(0) =~= assets@);
    while i < assets.len()
        invariant
            i <= assets.len(),
            release_download(assets@, page@) == release_download(assets@.skip(i as int), page@),
        decreases assets.len() - i,
    {
        assert(assets@.skip(i as int)[0] == assets@[i as int]);
        if ends_with(assets[i].name.as_str(), ".dmg") {
            return assets[i].browser_download_url.clone();
        }
        assert(assets@.skip(i as int).drop_first() =~= assets@.skip(i + 1));
        i = i + 1;
    }
    page.clone()
}

/// The update that `release` offers to a user running version `current`:
/// none unless the release's tag, with its leading `v`s removed, is newer;
/// otherwise that version, the first `.dmg` asset (or the release page) as
/// the download, and the release page.
pub fn update_for_release(current: &str, release: &GitHubRelease) -> (r: Option<UpdateInfo>)
    ensures
        r is Some <==> version_newer(strip_leading(release.tag_name@, 'v'), current@),
        r matches Some(u) ==> {
            &&& u.version@ == strip_leading(release.tag_name@, 'v')
            &&& u.download_url@ == release_download(release.assets@, release.html_url@)
            &&& u.html_url@ == release.html_url@
        },
{
    let latest = strip_leading_char(release.tag_name.as_str(), 'v');
    if !is_newer(latest.as_str(), current) {
        return None;
    }
    let download_url = pick_download(&release.assets, &release.html_url);
    Some(UpdateInfo { version: latest, download_url, html_url: release.html_url.clone() })
}

// ───────────────────────────── laws ─────────────────────────────
/// The version an update offers never starts with `v`.
pub proof fn lemma_offered_version_has_no_v(tag: Seq<char>)
    ensures
        strip_leading(tag, 'v').len() == 0 || strip_leading(tag, 'v')[0] != 'v',
    decreases tag.len(),
{
    if tag.len() > 0 && tag[0] == 'v' {
        lemma_offered_version_has_no_v(tag.drop_first());
    }
}

/// No version is newer than itself.
pub proof fn lemma_newer_irreflexive(v: Seq<char>)
    ensures
        !version_newer(v, v),
{
}

/// Of two versions at most one is newer than the other.
pub proof fn lemma_newer_asymmetric(a: Seq<char>, b: Seq<char>)
    ensures
        version_newer(a, b) ==> !version_newer(b, a),
{
    let x = version_parts(a);
    let y = version_parts(b);
    if parts_newer(x, y) && parts_newer(y, x) {
        let k1 = choose|k: int|
            0 <= k < max_len(x, y) && agree_before(x, y, k) && #[trigger] component(x, k)
                > component(y, k);
        let k2 = choose|k: int|
            0 <= k < max_len(y, x) && agree_before(y, x, k) && #[trigger] component(y, k)
                > component(x, k);
        if k1 < k2 {
            assert(component(y, k1) == component(x, k1));
        } else if k2 < k1 {
            assert(component(x, k2) == component(y, k2));
        }
    }
}

/// Being newer is transitive.
pub proof fn lemma_newer_transitive(a: Seq<char>, b: Seq<char>, c: Seq<char>)
    ensures
        version_newer(a, b) && version_newer(b, c) ==> version_newer(a, c),
{
    let x = version_parts(a);
    let y = version_parts(b);
    let z = version_parts(c);
    if parts_newer(x, y) && parts_newer(y, z) {
        let k1 = choose|k: int|
            0 <= k < max_len(x, y) && agree_before(x, y, k) && #[trigger] component(x, k)
                > component(y, k);
        let k2 = choose|k: int|
            0 <= k < max_len(y, z) && agree_before(y, z, k) && #[trigger] component(y, k)
                > component(z, k);
        let k = if k1 <= k2 {
            k1
        } else {
            k2
        };
        if k1 < k2 {
            assert(component(y, k1) == component(z, k1));
        } else if k2 < k1 {
            assert(component(x, k2) == component(y, k2));
        }
        assert(component(x, k) > component(z, k));
        assert(k < x.len());
        assert(agree_before(x, z, k)) by {
            assert forall|j: int| 0 <= j < k implies #[trigger] component(x, j) == component(
                z,
                j,
            ) by {
                assert(component(x, j) == component(y, j));
                assert(component(y, j) == component(z, j));
            }
        }
    }
}


/// The banner shown when an update is found:
/// `Moxin Studio <latest> is available — you have <current>`.
pub fn update_banner_text(latest: &str, current: &str) -> (r: String)
    ensures
        r@ == "Moxin Studio "@ + latest@ + " is available — you have "@ + current@,
{
    let a = concat("Moxin Studio ", latest);
    let b = concat(a.as_str(), " is available — you have ");
    concat(b.as_str(), current)
}

/// The settings page's answer to an update check:
/// `v<version> available — click Download`, or `You're up to date!`.
pub fn update_status_text(info: &Option<UpdateInfo>) -> (r: String)
    ensures
        r@ == (match info {
            Some(u) => "v"@ + u.version@ + " available — click Download"@,
            None => "You're up to date!"@,
        }),
{
    match info {
        Some(u) => {
            let a = concat("v", u.version.as_str());
            concat(a.as_str(), " available — click Download")
        },
        None => owned("You're up to date!"),
    }
}

/// The version line of the settings page: `Moxin Studio v<version>`.
pub fn version_label(version: &str) -> (r: String)
    ensures
        r@ == "Moxin Studio v"@ + version@,
{
    concat("Moxin Studio v", version)
}

} // verus!
