//! MQTT topic names and topic filters.
//!
//! A topic name is a non-empty byte string of `/`-separated levels without
//! wildcards and without NUL. A topic filter adds the wildcards `+` (exactly
//! one level) and `#` (all remaining levels, last level only), and may carry
//! a shared-subscription prefix `$share/<group>/<filter>`.

use vstd::prelude::*;

use crate::bytes_util::{bytes_eq, contains_byte};

verus! {

pub const SLASH: u8 = 47u8;

pub const PLUS: u8 = 43u8;

pub const HASH: u8 = 35u8;

pub const DOLLAR: u8 = 36u8;

/// Index of the first `/` in `s`, or `-1` if there is none.
pub open spec fn first_slash(s: Seq<u8>) -> int
    decreases s.len(),
{
    if s.len() == 0 {
        -1
    } else if s[0] == SLASH {
        0
    } else if first_slash(s.drop_first()) == -1 {
        -1
    } else {
        first_slash(s.drop_first()) + 1
    }
}

proof fn lemma_first_slash_at(s: Seq<u8>, i: int)
    requires
        0 <= i < s.len(),
        s[i] == SLASH,
        forall|j: int| 0 <= j < i ==> s[j] != SLASH,
    ensures
        first_slash(s) == i,
    decreases s.len(),
{
    if i > 0 {
        lemma_first_slash_at(s.drop_first(), i - 1);
    }
}

proof fn lemma_first_slash_none(s: Seq<u8>)
    requires
        forall|j: int| 0 <= j < s.len() ==> s[j] != SLASH,
    ensures
        first_slash(s) == -1,
    decreases s.len(),
{
    if s.len() > 0 {
        lemma_first_slash_none(s.drop_first());
    }
}

/// The `/`-separated levels of `s`. The empty string has one (empty) level.
pub open spec fn split_levels(s: Seq<u8>) -> Seq<Seq<u8>>
    decreases s.len(),
{
    let i = first_slash(s);
    if 0 <= i < s.len() {
        seq![s.subrange(0, i)] + split_levels(s.subrange(i + 1, s.len() as int))
    } else {
        seq![s]
    }
}

pub open spec fn is_plus_level(l: Seq<u8>) -> bool {
    l.len() == 1 && l[0] == PLUS
}

pub open spec fn is_hash_level(l: Seq<u8>) -> bool {
    l.len() == 1 && l[0] == HASH
}

/// A single filter level is well-formed: `#` and `+` stand alone in their
/// level, and `#` only in the last one.
pub open spec fn level_ok(l: Seq<u8>, is_last: bool) -> bool {
    &&& (l.contains(HASH) ==> is_hash_level(l) && is_last)
    &&& (l.contains(PLUS) ==> is_plus_level(l))
}

/// A well-formed filter path (after any share prefix was stripped).
pub open spec fn valid_filter_path(p: Seq<u8>) -> bool {
    &&& p.len() > 0
    &&& !p.contains(0u8)
    &&& forall|i: int|
        0 <= i < split_levels(p).len() ==> level_ok(
            #[trigger] split_levels(p)[i],
            i == split_levels(p).len() - 1,
        )
}

/// A well-formed topic name: non-empty, no wildcards, no NUL.
pub open spec fn valid_topic_name(t: Seq<u8>) -> bool {
    &&& t.len() > 0
    &&& !t.contains(0u8)
    &&& !t.contains(PLUS)
    &&& !t.contains(HASH)
}

/// A well-formed share-group name: non-empty, no `/`, no wildcards, no NUL.
pub open spec fn valid_share_group(g: Seq<u8>) -> bool {
    &&& g.len() > 0
    &&& !g.contains(SLASH)
    &&& !g.contains(PLUS)
    &&& !g.contains(HASH)
    &&& !g.contains(0u8)
}

pub open spec fn share_prefix() -> Seq<u8> {
    seq![DOLLAR, 115u8, 104u8, 97u8, 114u8, 101u8, SLASH]
}

/// Level-by-level filter matching, `$`-rule excluded.
pub open spec fn levels_match(f: Seq<Seq<u8>>, t: Seq<Seq<u8>>) -> bool
    decreases f.len(),
{
    if f.len() == 0 {
        t.len() == 0
    } else if is_hash_level(f[0]) {
        true
    } else if t.len() == 0 {
        false
    } else if is_plus_level(f[0]) || f[0] == t[0] {
        levels_match(f.drop_first(), t.drop_first())
    } else {
        false
    }
}

/// Whether the filter path `p` matches the topic name `t`, including the
/// rule that a topic starting with `$` is not matched by a filter whose
/// first level is a wildcard.
pub open spec fn filter_matches_topic(p: Seq<u8>, t: Seq<u8>) -> bool {
    &&& levels_match(split_levels(p), split_levels(t))
    &&& !(t.len() > 0 && t[0] == DOLLAR && p.len() > 0 && (p[0] == PLUS || p[0] == HASH))
}

/// Result of parsing a filter string: the share group, if any, and the
/// filter path proper.
#[verifier::ext_equal]
pub ghost struct FilterParts {
    pub share: Option<Seq<u8>>,
    pub path: Seq<u8>,
}

/// What `TopicFilter::parse` accepts and returns, as a specification.
pub open spec fn filter_spec(s: Seq<u8>) -> Option<FilterParts> {
    if s.len() >= 7 && s.subrange(0, 7) == share_prefix() {
        let rest = s.subrange(7, s.len() as int);
        let i = first_slash(rest);
        if 0 <= i < rest.len() && valid_share_group(rest.subrange(0, i)) && valid_filter_path(
            rest.subrange(i + 1, rest.len() as int),
        ) {
            Some(
                FilterParts {
                    share: Some(rest.subrange(0, i)),
                    path: rest.subrange(i + 1, rest.len() as int),
                },
            )
        } else {
            None
        }
    } else {
        if valid_filter_path(s) {
            Some(FilterParts { share: None, path: s })
        } else {
            None
        }
    }
}

/// A parsed topic filter.
pub struct TopicFilter {
    /// Share-group name, for `$share/<group>/<filter>` subscriptions.
    pub share: Option<Vec<u8>>,
    /// The filter path, share prefix stripped.
    pub path: Vec<u8>,
    /// The levels of `path`, precomputed at parse time; `wf()` ties them to
    /// `split_levels(path@)`.
    pub levels: Vec<Vec<u8>>,
}

pub open spec fn level_views(ls: Seq<Vec<u8>>) -> Seq<Seq<u8>> {
    ls.map_values(|l: Vec<u8>| l@)
}

#[verifier::ext_equal]
pub ghost struct TopicFilterView {
    pub share: Option<Seq<u8>>,
    pub path: Seq<u8>,
    pub levels: Seq<Seq<u8>>,
}

impl View for TopicFilter {
    type V = TopicFilterView;

    open spec fn view(&self) -> TopicFilterView {
        TopicFilterView {
            share: match self.share {
                Some(g) => Some(g@),
                None => None,
            },
            path: self.path@,
            levels: level_views(self.levels@),
        }
    }
}

/// The filter is exactly what parsing produces: a valid path whose
/// precomputed levels are its split, and a valid share group if shared.
pub open spec fn filter_view_wf(v: TopicFilterView) -> bool {
    &&& valid_filter_path(v.path)
    &&& v.levels == split_levels(v.path)
    &&& match v.share {
        Some(g) => valid_share_group(g),
        None => true,
    }
}

impl TopicFilter {
    pub open spec fn wf(self) -> bool {
        filter_view_wf(self@)
    }

    pub open spec fn share_view(self) -> Option<Seq<u8>> {
        self@.share
    }

    /// Parse a filter string; accepts an optional `$share/<group>/` prefix.
    pub fn parse(s: &[u8]) -> (r: Option<TopicFilter>)
        ensures
            match r {
                Some(f) => {
                    &&& filter_spec(s@) is Some
                    &&& f.wf()
                    &&& f.path@ == filter_spec(s@)->Some_0.path
                    &&& f.share_view() == filter_spec(s@)->Some_0.share
                },
                None => filter_spec(s@) is None,
            },
    {
        let is_shared = s.len() >= 7 && s[0] == DOLLAR && s[1] == 115 && s[2] == 104 && s[3] == 97
            && s[4] == 114 && s[5] == 101 && s[6] == SLASH;
        proof {
            if s@.len() >= 7 {
                assert(is_shared == (s@.subrange(0, 7) == share_prefix())) by {
                    if s@[0] == DOLLAR && s@[1] == 115 && s@[2] == 104 && s@[3] == 97 && s@[4]
                        == 114 && s@[5] == 101 && s@[6] == SLASH {
                        assert(s@.subrange(0, 7) =~= share_prefix());
                    } else {
                        assert(s@.subrange(0, 7) != share_prefix()) by {
                            if s@.subrange(0, 7) == share_prefix() {
                                assert(s@[0] == s@.subrange(0, 7)[0]);
                                assert(s@[1] == s@.subrange(0, 7)[1]);
                                assert(s@[2] == s@.subrange(0, 7)[2]);
                                assert(s@[3] == s@.subrange(0, 7)[3]);
                                assert(s@[4] == s@.subrange(0, 7)[4]);
                                assert(s@[5] == s@.subrange(0, 7)[5]);
                                assert(s@[6] == s@.subrange(0, 7)[6]);
                            }
                        }
                    }
                }
            }
        }
        if is_shared {
            let ghost rest_spec = s@.subrange(7, s@.len() as int);
            // find the slash that ends the group name
            let mut j: usize = 7;
            let mut found = false;
            while j < s.len() && !found
                invariant
                    7 <= j <= s.len(),
                    found ==> j < s.len() && s@[j as int] == SLASH,
                    forall|m: int| 7 <= m < j ==> s@[m] != SLASH,
                decreases s.len() - j + (if found { 0int } else { 1int }),
            {
                if s[j] == SLASH {
                    found = true;
                } else {
                    j += 1;
                }
            }
            if !found {
                proof {
                    assert(forall|m: int|
                        0 <= m < rest_spec.len() ==> rest_spec[m] == s@[m + 7]);
                    lemma_first_slash_none(rest_spec);
                }
                return None;
            }
            proof {
                assert(forall|m: int| 0 <= m < rest_spec.len() ==> rest_spec[m] == s@[m + 7]);
                lemma_first_slash_at(rest_spec, j - 7);
            }
            // group name: s[7..j]
            let mut group: Vec<u8> = Vec::new();
            let mut m: usize = 7;
            while m < j
                invariant
                    7 <= m <= j <= s.len(),
                    group@.len() == m - 7,
                    forall|x: int| 0 <= x < group@.len() ==> group@[x] == s@[x + 7],
                decreases j - m,
            {
                group.push(s[m]);
                m += 1;
            }
            proof {
                assert(group@ =~= rest_spec.subrange(0, j - 7));
            }
            if group.len() == 0 || contains_byte(group.as_slice(), SLASH) || contains_byte(
                group.as_slice(),
                PLUS,
            ) || contains_byte(group.as_slice(), HASH) || contains_byte(group.as_slice(), 0) {
                return None;
            }
            // filter path: s[j+1..]
            let mut path: Vec<u8> = Vec::new();
            let mut x: usize = j + 1;
            while x < s.len()
                invariant
                    j + 1 <= x <= s.len(),
                    path@.len() == x - j - 1,
                    forall|y: int| 0 <= y < path@.len() ==> path@[y] == s@[y + j + 1],
                decreases s.len() - x,
            {
                path.push(s[x]);
                x += 1;
            }
            proof {
                assert(path@ =~= rest_spec.subrange(j - 7 + 1, rest_spec.len() as int));
            }
            match Self::from_path(path) {
                Some(mut f) => {
                    f.share = Some(group);
                    Some(f)
                },
                None => None,
            }
        } else {
            let mut path: Vec<u8> = Vec::new();
            let mut x: usize = 0;
            while x < s.len()
                invariant
                    0 <= x <= s.len(),
                    path@.len() == x,
                    forall|y: int| 0 <= y < path@.len() ==> path@[y] == s@[y],
                decreases s.len() - x,
            {
                path.push(s[x]);
                x += 1;
            }
            proof {
                assert(path@ =~= s@);
            }
            Self::from_path(path)
        }
    }

    /// Validate a bare filter path (no share prefix) and split its levels.
    fn from_path(path: Vec<u8>) -> (r: Option<TopicFilter>)
        ensures
            match r {
                Some(f) => {
                    &&& valid_filter_path(path@)
                    &&& f.wf()
                    &&& f.path@ == path@
                    &&& f.share is None
                },
                None => !valid_filter_path(path@),
            },
    {
        if path.len() == 0 {
            return None;
        }
        if contains_byte(path.as_slice(), 0) {
            return None;
        }
        let levels = split_bytes(path.as_slice());
        let ghost ls = split_levels(path@);
        let mut i: usize = 0;
        while i < levels.len()
            invariant
                0 <= i <= levels.len(),
                ls == split_levels(path@),
                path@.len() > 0,
                !path@.contains(0u8),
                level_views(levels@) =~= ls,
                levels@.len() == ls.len(),
                forall|k: int| 0 <= k < i ==> level_ok(ls[k], k == ls.len() - 1),
            decreases levels.len() - i,
        {
            let l = &levels[i];
            let is_last = i == levels.len() - 1;
            assert(l@ == ls[i as int]);
            if contains_byte(l.as_slice(), HASH) {
                if !(is_last && l.len() == 1) {
                    proof {
                        assert(!level_ok(ls[i as int], i as int == ls.len() - 1));
                        assert(!valid_filter_path(path@)) by {
                            assert(split_levels(path@)[i as int] == ls[i as int]);
                        }
                    }
                    return None;
                }
            }
            if contains_byte(l.as_slice(), PLUS) {
                if l.len() != 1 {
                    proof {
                        assert(!level_ok(ls[i as int], i as int == ls.len() - 1));
                        assert(!valid_filter_path(path@)) by {
                            assert(split_levels(path@)[i as int] == ls[i as int]);
                        }
                    }
                    return None;
                }
            }
            proof {
                let lv = ls[i as int];
                if lv.contains(HASH) {
                    let idx = choose|idx: int| 0 <= idx < lv.len() && lv[idx] == HASH;
                    assert(idx == 0);
                    assert(is_hash_level(lv));
                }
                if lv.contains(PLUS) {
                    let idx = choose|idx: int| 0 <= idx < lv.len() && lv[idx] == PLUS;
                    assert(idx == 0);
                    assert(is_plus_level(lv));
                }
                assert(level_ok(lv, i as int == ls.len() - 1));
            }
            i += 1;
        }
        Some(TopicFilter { share: None, path, levels })
    }

    pub fn path(&self) -> (r: &Vec<u8>)
        ensures
            r@ == self.path@,
    {
        &self.path
    }

    pub fn share_name(&self) -> (r: Option<&Vec<u8>>)
        ensures
            match r {
                Some(g) => self.share_view() == Some(g@),
                None => self.share_view() is None,
            },
    {
        self.share.as_ref()
    }

    pub fn has_wildcards(&self) -> (r: bool)
        ensures
            r == (self.path@.contains(PLUS) || self.path@.contains(HASH)),
    {
        contains_byte(self.path.as_slice(), PLUS) || contains_byte(self.path.as_slice(), HASH)
    }

    /// Whether this filter matches the topic name `topic`.
    pub fn matches(&self, topic: &[u8]) -> (r: bool)
        requires
            self.wf(),
        ensures
            r == filter_matches_topic(self.path@, topic@),
    {
        // the `$`-rule: wildcard first levels do not match `$...` topics
        if topic.len() > 0 && topic[0] == DOLLAR && self.path.len() > 0 && (self.path[0] == PLUS
            || self.path[0] == HASH) {
            return false;
        }
        let tlevels = split_bytes(topic);
        let ghost fs = split_levels(self.path@);
        let ghost ts = split_levels(topic@);
        proof {
            assert(fs.skip(0) =~= fs);
            assert(ts.skip(0) =~= ts);
        }
        let mut k: usize = 0;
        while k < self.levels.len()
            invariant
                0 <= k <= self.levels.len(),
                fs == split_levels(self.path@),
                ts == split_levels(topic@),
                !(topic@.len() > 0 && topic@[0] == DOLLAR && self.path@.len() > 0 && (
                self.path@[0] == PLUS || self.path@[0] == HASH)),
                level_views(self.levels@) == fs,
                level_views(tlevels@) == ts,
                self.levels@.len() == fs.len(),
                tlevels@.len() == ts.len(),
                k <= ts.len(),
                levels_match(fs, ts) == levels_match(fs.skip(k as int), ts.skip(k as int)),
            decreases self.levels.len() - k,
        {
            let fl = &self.levels[k];
            assert(fl@ == fs[k as int]);
            assert(fs.skip(k as int)[0] == fs[k as int]);
            if fl.len() == 1 && fl[0] == HASH {
                assert(is_hash_level(fs.skip(k as int)[0]));
                assert(levels_match(fs.skip(k as int), ts.skip(k as int)));
                return true;
            }
            assert(!is_hash_level(fs.skip(k as int)[0]));
            if k == tlevels.len() {
                assert(ts.skip(k as int).len() == 0);
                assert(!levels_match(fs.skip(k as int), ts.skip(k as int)));
                return false;
            }
            let tl = &tlevels[k];
            assert(tl@ == ts[k as int]);
            assert(ts.skip(k as int)[0] == ts[k as int]);
            let is_plus = fl.len() == 1 && fl[0] == PLUS;
            if is_plus || bytes_eq(fl.as_slice(), tl.as_slice()) {
                proof {
                    assert(fs.skip(k as int).drop_first() =~= fs.skip(k + 1));
                    assert(ts.skip(k as int).drop_first() =~= ts.skip(k + 1));
                }
                k += 1;
            } else {
                assert(!is_plus_level(fs.skip(k as int)[0]));
                assert(fs.skip(k as int)[0] != ts.skip(k as int)[0]);
                assert(!levels_match(fs.skip(k as int), ts.skip(k as int)));
                return false;
            }
        }
        assert(fs.skip(k as int).len() == 0);
        assert(levels_match(fs.skip(k as int), ts.skip(k as int)) == (ts.skip(k as int).len()
            == 0));
        let r = k == tlevels.len();
        assert(r == (ts.skip(k as int).len() == 0));
        r
    }
}

/// Split a byte string into its `/`-separated segments.
pub fn split_bytes(s: &[u8]) -> (r: Vec<Vec<u8>>)
    ensures
        level_views(r@) == split_levels(s@),
{
    let mut out: Vec<Vec<u8>> = Vec::new();
    let mut start: usize = 0;
    proof {
        assert(s@.subrange(0, s@.len() as int) =~= s@);
        assert(level_views(out@) =~= Seq::<Seq<u8>>::empty());
        assert(level_views(out@) + split_levels(s@) =~= split_levels(s@));
    }
    loop
        invariant
            0 <= start <= s.len(),
            split_levels(s@) =~= level_views(out@) + split_levels(
                s@.subrange(start as int, s@.len() as int),
            ),
        decreases s.len() - start + 1,
    {
        let ghost rem = s@.subrange(start as int, s@.len() as int);
        // find next slash
        let mut j: usize = start;
        let mut found = false;
        while j < s.len() && !found
            invariant
                start <= j <= s.len(),
                found ==> j < s.len() && s@[j as int] == SLASH,
                forall|m: int| start <= m < j ==> s@[m] != SLASH,
            decreases s.len() - j + (if found { 0int } else { 1int }),
        {
            if s[j] == SLASH {
                found = true;
            } else {
                j += 1;
            }
        }
        // copy segment s[start..j]
        let mut seg: Vec<u8> = Vec::new();
        let mut m: usize = start;
        while m < j
            invariant
                start <= m <= j <= s.len(),
                seg@.len() == m - start,
                forall|x: int| 0 <= x < seg@.len() ==> seg@[x] == s@[x + start],
            decreases j - m,
        {
            seg.push(s[m]);
            m += 1;
        }
        proof {
            assert(forall|m2: int| 0 <= m2 < rem.len() ==> rem[m2] == s@[m2 + start]);
        }
        if found {
            proof {
                lemma_first_slash_at(rem, j - start);
                assert(seg@ =~= rem.subrange(0, j - start));
                assert(rem.subrange(j - start + 1, rem.len() as int) =~= s@.subrange(
                    j + 1,
                    s@.len() as int,
                ));
                assert(level_views(out@.push(seg)) =~= level_views(out@) + seq![seg@]);
            }
            out.push(seg);
            start = j + 1;
        } else {
            proof {
                lemma_first_slash_none(rem);
                assert(seg@ =~= rem);
                assert(split_levels(rem) =~= seq![rem]);
                assert(level_views(out@.push(seg)) =~= level_views(out@) + seq![seg@]);
            }
            out.push(seg);
            return out;
        }
    }
}

/// Validate a topic name for publishing: non-empty, no wildcards, no NUL.
pub fn valid_topic(t: &[u8]) -> (r: bool)
    ensures
        r == valid_topic_name(t@),
{
    t.len() > 0 && !contains_byte(t, 0) && !contains_byte(t, PLUS) && !contains_byte(t, HASH)
}

} // verus!
