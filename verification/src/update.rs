//! The self-update check: which published release is the latest `v2-`
//! release, and whether it is newer than the running version.

use vstd::prelude::*;

use crate::text::{chars_of, lemma_prefix_ends, prefix_of};
use crate::version::{is_newer, newer};

verus! {

/// The list of published releases that the update check reads.
pub const RELEASES_API: &'static str =
    "https://api.github.com/repos/bryanroscoe/shield_optimizer/releases?per_page=20";

/// The page where users find the releases.
pub const RELEASES_PAGE: &'static str = "https://github.com/bryanroscoe/shield_optimizer/releases";

/// What the update check reads of one published release: its `draft` flag
/// where that is a boolean, and its `tag_name` where that is a string.
pub struct Release {
    pub draft: Option<bool>,
    pub tag_name: Option<String>,
}

/// What the update check reads of a release, as plain values: the `draft`
/// flag and the tag's text.
pub open spec fn release_view(r: Release) -> (Option<bool>, Option<Seq<char>>) {
    (
        r.draft,
        match r.tag_name {
            Some(t) => Some(t@),
            None => None,
        },
    )
}

/// What the update check reads of a list of releases.
pub open spec fn releases_view(rs: Seq<Release>) -> Seq<(Option<bool>, Option<Seq<char>>)> {
    rs.map_values(|r: Release| release_view(r))
}

/// The result of an update check, for the user interface.
pub struct UpdateInfo {
    pub current: String,
    pub latest: Option<String>,
    pub update_available: bool,
    pub url: String,
}

/// The tag prefix of this line of releases.
pub open spec fn v2_prefix() -> Seq<char> {
    seq!['v', '2', '-']
}

/// The version a release offers: the part of its tag after `v2-`, for a
/// release that is not a draft and whose tag starts with `v2-`.
pub open spec fn release_version(r: (Option<bool>, Option<Seq<char>>)) -> Option<Seq<char>> {
    if r.0 == Some(true) {
        None
    } else {
        match r.1 {
            Some(t) => if t.len() >= 3 && t.take(3) == v2_prefix() {
                Some(t.skip(3))
            } else {
                None
            },
            None => None,
        }
    }
}

/// A release's version comes from its tag alone once it is not a draft:
/// any release whose `draft` flag is not `true` (false, or not a boolean)
/// and whose tag is `v2-` followed by `x` offers exactly `x`, pre-releases
/// included; a draft offers nothing.
pub proof fn law_only_drafts_are_skipped(draft: Option<bool>, x: Seq<char>)
    ensures
        draft != Some(true) ==> release_version((draft, Some(seq!['v', '2', '-'] + x))) == Some(x),
        release_version((Some(true), Some(seq!['v', '2', '-'] + x))) is None,
{
    let t = seq!['v', '2', '-'] + x;
    assert(t.take(3) =~= v2_prefix());
    assert(t.skip(3) =~= x);
}

/// The version kept after reading releases in order: the first one offered,
/// replaced by each later offered version that is newer than the one kept.
pub open spec fn latest_of(rs: Seq<(Option<bool>, Option<Seq<char>>)>) -> Option<Seq<char>>
    decreases rs.len(),
{
    if rs.len() == 0 {
        None
    } else {
        let kept = latest_of(rs.drop_last());
        match release_version(rs.last()) {
            None => kept,
            Some(v) => match kept {
                None => Some(v),
                Some(b) => if newer(v, b) {
                    Some(v)
                } else {
                    Some(b)
                },
            },
        }
    }
}

/// The version a release offers, if any.
pub fn offered_version(r: &Release) -> (v: Option<String>)
    ensures
        match v {
            Some(s) => release_version(release_view(*r)) == Some(s@),
            None => release_version(release_view(*r)) is None,
        },
{
    match r.draft {
        Some(true) => {
            return None;
        },
        _ => {},
    }
    match &r.tag_name {
        None => None,
        Some(tag) => {
            let t = tag.as_str();
            let cs = chars_of(t);
            if cs.len() >= 3 && cs[0] == 'v' && cs[1] == '2' && cs[2] == '-' {
                assert(t@.take(3) =~= v2_prefix());
                Some(String::from_str(t.substring_char(3, cs.len())))
            } else {
                proof {
                    if t@.len() >= 3 && t@.take(3) == v2_prefix() {
                        assert(t@.take(3)[0] == 'v');
                        assert(t@.take(3)[1] == '2');
                        assert(t@.take(3)[2] == '-');
                    }
                }
                None
            }
        },
    }
}

proof fn lemma_releases_view_step(rs: Seq<Release>, i: usize, j: usize)
    requires
        i < rs.len(),
        j == i + 1,
    ensures
        releases_view(prefix_of(rs, j)).len() > 0,
        releases_view(prefix_of(rs, j)).drop_last() == releases_view(prefix_of(rs, i)),
        releases_view(prefix_of(rs, j)).last() == release_view(rs[i as int]),
{
    assert(releases_view(prefix_of(rs, j)).drop_last() =~= releases_view(prefix_of(rs, i)));
}

proof fn lemma_releases_view_ends(rs: Seq<Release>, i: usize)
    ensures
        i == 0 ==> releases_view(prefix_of(rs, i)).len() == 0,
        i == rs.len() ==> releases_view(prefix_of(rs, i)) == releases_view(rs),
{
    lemma_prefix_ends(rs, i);
}

/// The latest `v2-` version among the releases, skipping drafts: each
/// offered version replaces the one kept so far when it is newer.
pub fn pick_latest_v2_tag(releases: &Vec<Release>) -> (best: Option<String>)
    ensures
        match best {
            Some(s) => latest_of(releases_view(releases@)) == Some(s@),
            None => latest_of(releases_view(releases@)) is None,
        },
{
    let mut best: Option<String> = None;
    let n = releases.len();
    let mut i: usize = 0;
    proof {
        lemma_releases_view_ends(releases@, i);
    }
    while i < n
        invariant
            i <= n,
            n == releases.len(),
            match best {
                Some(s) => latest_of(releases_view(prefix_of(releases@, i))) == Some(s@),
                None => latest_of(releases_view(prefix_of(releases@, i))) is None,
            },
        decreases n - i,
    {
        let j = i + 1;
        proof {
            lemma_releases_view_step(releases@, i, j);
        }
        match offered_version(&releases[i]) {
            None => {},
            Some(ver) => {
                let replace = match &best {
                    None => true,
                    Some(b) => is_newer(ver.as_str(), b.as_str()),
                };
                if replace {
                    best = Some(ver);
                }
            },
        }
        i = j;
    }
    proof {
        lemma_releases_view_ends(releases@, i);
    }
    best
}

/// What `serde_json::from_str` makes of a response body read as a JSON
/// array of release objects: for each element in order, its `draft` member
/// where that is a boolean and its `tag_name` member where that is a
/// string; where the body is not a JSON array, the text of serde_json's
/// error (its message, with the line and column where reading stopped).
pub uninterp spec fn releases_of_body(body: Seq<char>) -> Result<
    Seq<(Option<bool>, Option<Seq<char>>)>,
    Seq<char>,
>;

/// Calls `serde_json::from_str` to read the body as an array of JSON values,
/// then takes from each element its boolean `draft` and its string
/// `tag_name` members; a parse error is turned into its text with
/// `to_string`. Claims only that the result, releases or error text, is a
/// fixed function of the body (`releases_of_body`); JSON's grammar and the
/// wording of serde_json's messages are left unstated.
#[verifier::external_body]
fn parse_releases(body: &str) -> (r: Result<Vec<Release>, String>)
    ensures
        match r {
            Ok(rs) => releases_of_body(body@) == Ok::<_, Seq<char>>(releases_view(rs@)),
            Err(e) => releases_of_body(body@) == Err::<Seq<(Option<bool>, Option<Seq<char>>)>, _>(e@),
        },
{
    let values: Vec<serde_json::Value> = serde_json::from_str(body).map_err(|e| e.to_string())?;
    let mut releases = Vec::new();
    for v in &values {
        let draft = match v.get("draft") {
            Some(serde_json::Value::Bool(b)) => Some(*b),
            _ => None,
        };
        let tag_name = match v.get("tag_name") {
            Some(serde_json::Value::String(t)) => Some(t.clone()),
            _ => None,
        };
        releases.push(Release { draft, tag_name });
    }
    Ok(releases)
}

/// The latest `v2-` version listed in a release-list response body, or the
/// text of the parse error where the body is not a JSON array.
pub fn latest_v2_tag_of_body(body: &str) -> (r: Result<Option<String>, String>)
    ensures
        match r {
            Ok(best) => {
                &&& releases_of_body(body@) is Ok
                &&& match best {
                    Some(s) => latest_of(releases_of_body(body@)->Ok_0) == Some(s@),
                    None => latest_of(releases_of_body(body@)->Ok_0) is None,
                }
            },
            Err(e) => releases_of_body(body@) == Err::<Seq<(Option<bool>, Option<Seq<char>>)>, _>(e@),
        },
{
    match parse_releases(body) {
        Ok(releases) => Ok(pick_latest_v2_tag(&releases)),
        Err(e) => Err(e),
    }
}

/// The update check's answer for the running version `current` and the
/// outcome of looking up the latest release: a failed lookup counts as
/// "no release found", and an update is available exactly when the latest
/// release is newer than `current`.
pub fn check_for_update(current: String, fetched: Result<Option<String>, String>) -> (info:
    UpdateInfo)
    ensures
        info.current@ == current@,
        info.latest == match fetched {
            Ok(l) => l,
            Err(_) => None,
        },
        info.update_available == match info.latest {
            Some(l) => newer(l@, current@),
            None => false,
        },
        info.url@ == RELEASES_PAGE@,
{
    let latest = match fetched {
        Ok(l) => l,
        Err(_) => None,
    };
    let update_available = match &latest {
        Some(l) => is_newer(l.as_str(), current.as_str()),
        None => false,
    };
    UpdateInfo { current, latest, update_available, url: String::from_str(RELEASES_PAGE) }
}

/// Release `k` offers version `v`.
pub open spec fn offered_at(rs: Seq<(Option<bool>, Option<Seq<char>>)>, k: int, v: Seq<char>) -> bool {
    0 <= k < rs.len() && release_version(rs[k]) == Some(v)
}

/// Some release offers version `v`.
pub open spec fn offered(rs: Seq<(Option<bool>, Option<Seq<char>>)>, v: Seq<char>) -> bool {
    exists|k: int| offered_at(rs, k, v)
}

/// A latest version is found exactly when some release offers one (a
/// release that is not a draft, with a `v2-` tag).
pub proof fn law_latest_found_iff_offered(rs: Seq<(Option<bool>, Option<Seq<char>>)>)
    ensures
        latest_of(rs) is Some <==> exists|i: int|
            0 <= i < rs.len() && (#[trigger] release_version(rs[i])) is Some,
    decreases rs.len(),
{
    if rs.len() > 0 {
        let init = rs.drop_last();
        law_latest_found_iff_offered(init);
        if exists|i: int| 0 <= i < init.len() && (#[trigger] release_version(init[i])) is Some {
            let i = choose|i: int|
                0 <= i < init.len() && (#[trigger] release_version(init[i])) is Some;
            assert(rs[i] == init[i]);
        }
        if exists|i: int| 0 <= i < rs.len() && (#[trigger] release_version(rs[i])) is Some {
            let i = choose|i: int| 0 <= i < rs.len() && (#[trigger] release_version(rs[i])) is Some;
            if i < rs.len() - 1 {
                assert(init[i] == rs[i]);
            }
        }
    }
}

/// No release after position `k` offers a version newer than `v`.
pub open spec fn unbeaten_after(rs: Seq<(Option<bool>, Option<Seq<char>>)>, k: int, v: Seq<char>) -> bool {
    forall|j: int|
        k < j < rs.len() && (#[trigger] release_version(rs[j])) is Some ==> !newer(
            release_version(rs[j])->0,
            v,
        )
}

/// The latest version found is the one some release offers, and no release
/// listed after that one offers a newer version.
pub proof fn law_latest_unbeaten_by_later_releases(rs: Seq<(Option<bool>, Option<Seq<char>>)>)
    ensures
        latest_of(rs) matches Some(v) ==> exists|k: int|
            offered_at(rs, k, v) && #[trigger] unbeaten_after(rs, k, v),
    decreases rs.len(),
{
    if rs.len() > 0 {
        let init = rs.drop_last();
        let last = rs.len() - 1;
        law_latest_unbeaten_by_later_releases(init);
        assert(rs[last] == rs.last());
        let kept = latest_of(init);
        let offered = release_version(rs.last());
        if offered is Some && (kept is None || newer(offered->0, kept->0)) {
            let v = offered->0;
            assert(latest_of(rs) == Some(v));
            assert(offered_at(rs, last, v));
            assert(unbeaten_after(rs, last, v));
        } else if kept is Some {
            let v = kept->0;
            assert(latest_of(rs) == Some(v));
            let k = choose|k: int| offered_at(init, k, v) && #[trigger] unbeaten_after(init, k, v);
            assert(rs[k] == init[k]);
            assert forall|j: int|
                k < j < rs.len() && (#[trigger] release_version(rs[j])) is Some implies !newer(
                release_version(rs[j])->0,
                v,
            ) by {
                if j < last {
                    assert(rs[j] == init[j]);
                }
            }
            assert(offered_at(rs, k, v));
            assert(unbeaten_after(rs, k, v));
        } else {
            assert(latest_of(rs) is None);
        }
    }
}

/// `newer` is transitive among the versions that the releases offer.
pub open spec fn newer_transitive_on_offers(rs: Seq<(Option<bool>, Option<Seq<char>>)>) -> bool {
    forall|x: Seq<char>, y: Seq<char>, z: Seq<char>|
        #![trigger newer(x, y), newer(y, z)]
        offered(rs, x) && offered(rs, y) && offered(rs, z) && newer(x, y) && newer(y, z) ==> newer(
            x,
            z,
        )
}

/// Where `newer` is transitive among the offered versions, the version
/// picked is the highest: no release offers a newer one. (Transitivity can
/// fail when numeric and textual pre-release identifiers mix, as in
/// `1a`, `10`, `9`; then the pick depends on the order of the list.)
pub proof fn law_latest_is_highest_when_transitive(rs: Seq<(Option<bool>, Option<Seq<char>>)>)
    requires
        newer_transitive_on_offers(rs),
    ensures
        latest_of(rs) matches Some(v) ==> forall|i: int|
            0 <= i < rs.len() && (#[trigger] release_version(rs[i])) is Some ==> !newer(
                release_version(rs[i])->0,
                v,
            ),
    decreases rs.len(),
{
    if rs.len() > 0 {
        let init = rs.drop_last();
        let last = rs.len() - 1;
        assert(rs[last] == rs.last());
        assert forall|x: Seq<char>| offered(init, x) implies offered(rs, x) by {
            let k = choose|k: int| offered_at(init, k, x);
            assert(rs[k] == init[k]);
            assert(offered_at(rs, k, x));
        }
        assert(newer_transitive_on_offers(init));
        law_latest_is_highest_when_transitive(init);
        let kept = latest_of(init);
        let offered_last = release_version(rs.last());
        law_latest_found_iff_offered(init);
        lemma_latest_is_offered(init);
        if latest_of(rs) is Some {
            let v = latest_of(rs)->0;
            crate::version::law_newer_is_a_strict_order_pairwise(v, v);
            if offered_last is Some && (kept is None || newer(offered_last->0, kept->0)) {
                assert(v == offered_last->0);
                assert(offered_at(rs, last, v));
                assert forall|i: int|
                    0 <= i < rs.len() && (#[trigger] release_version(rs[i])) is Some implies !newer(
                    release_version(rs[i])->0,
                    v,
                ) by {
                    let c = release_version(rs[i])->0;
                    if i < last {
                        assert(rs[i] == init[i]);
                        assert(release_version(init[i]) is Some);
                        let b = kept->0;
                        assert(offered_at(init, i, c));
                        assert(offered_at(rs, i, c));
                        assert(!newer(c, b));
                        let k2 = choose|k2: int| offered_at(init, k2, b);
                        assert(rs[k2] == init[k2]);
                        assert(offered_at(rs, k2, b));
                        if newer(c, v) {
                            assert(newer(c, v) && newer(v, b));
                            assert(newer(c, b));
                        }
                    }
                }
            } else {
                assert(v == kept->0);
                assert forall|i: int|
                    0 <= i < rs.len() && (#[trigger] release_version(rs[i])) is Some implies !newer(
                    release_version(rs[i])->0,
                    v,
                ) by {
                    if i < last {
                        assert(rs[i] == init[i]);
                        assert(release_version(init[i]) is Some);
                    }
                }
            }
        }
    }
}

/// The version picked is one that some release offers.
pub proof fn lemma_latest_is_offered(rs: Seq<(Option<bool>, Option<Seq<char>>)>)
    ensures
        latest_of(rs) matches Some(v) ==> offered(rs, v),
{
    law_latest_unbeaten_by_later_releases(rs);
}

} // verus!
