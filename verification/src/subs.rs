//! Notification subscriptions, keyed by guild and by a normalized channel
//! identifier.

use vstd::prelude::*;
use crate::json::str_eq;
use crate::text::{ascii_lower, ascii_lower_of, trim, trim_of};

verus! {

#[derive(Debug, Clone, PartialEq, Eq)]
pub struct YouTubeSubscription {
    /// The identifier exactly as the user gave it.
    pub youtube_channel: String,
    /// The normalized key used for lookups.
    pub youtube_key: String,
    /// Where notifications go.
    pub notify_channel_id: u64,
    pub videos: bool,
    pub shorts: bool,
    pub streams: bool,
    pub podcasts: bool,
    pub playlists: bool,
    pub store: bool,
    pub posts: bool,
    pub releases: bool,
}

pub struct SubV {
    pub youtube_channel: Seq<char>,
    pub youtube_key: Seq<char>,
    pub notify_channel_id: u64,
    pub videos: bool,
    pub shorts: bool,
    pub streams: bool,
    pub podcasts: bool,
    pub playlists: bool,
    pub store: bool,
    pub posts: bool,
    pub releases: bool,
}

impl View for YouTubeSubscription {
    type V = SubV;

    open spec fn view(&self) -> SubV {
        SubV {
            youtube_channel: self.youtube_channel@,
            youtube_key: self.youtube_key@,
            notify_channel_id: self.notify_channel_id,
            videos: self.videos,
            shorts: self.shorts,
            streams: self.streams,
            podcasts: self.podcasts,
            playlists: self.playlists,
            store: self.store,
            posts: self.posts,
            releases: self.releases,
        }
    }
}

/// All subscriptions, grouped per guild, plus the last item notified per
/// guild and channel key.
#[derive(Debug, Clone, PartialEq, Eq)]
pub struct YoutubeSchema {
    pub guilds: Vec<(u64, Vec<YouTubeSubscription>)>,
    pub last_notified: Vec<(u64, Vec<(String, String)>)>,
}

pub open spec fn subs_view(v: Seq<YouTubeSubscription>) -> Seq<SubV> {
    v.map_values(|s: YouTubeSubscription| s@)
}

/// The first guild entry with this id.
pub open spec fn find_guild(gs: Seq<(u64, Seq<SubV>)>, gid: u64) -> Option<Seq<SubV>>
    decreases gs.len(),
{
    if gs.len() == 0 {
        None
    } else if gs[0].0 == gid {
        Some(gs[0].1)
    } else {
        find_guild(gs.drop_first(), gid)
    }
}

pub open spec fn guilds_view(gs: Seq<(u64, Vec<YouTubeSubscription>)>) -> Seq<(u64, Seq<SubV>)> {
    gs.map_values(|g: (u64, Vec<YouTubeSubscription>)| (g.0, subs_view(g.1@)))
}

/// The first subscription with this key.
pub open spec fn find_key_sub(subs: Seq<SubV>, key: Seq<char>) -> Option<SubV>
    decreases subs.len(),
{
    if subs.len() == 0 {
        None
    } else if subs[0].youtube_key == key {
        Some(subs[0])
    } else {
        find_key_sub(subs.drop_first(), key)
    }
}

/// The subscription a guild holds for a channel key, if any.
pub open spec fn find_sub(schema: YoutubeSchema, gid: u64, key: Seq<char>) -> Option<SubV> {
    match find_guild(guilds_view(schema.guilds@), gid) {
        Some(subs) => find_key_sub(subs, key),
        None => None,
    }
}

pub open spec fn keys_distinct(subs: Seq<SubV>) -> bool {
    forall|i: int, j: int|
        0 <= i < j < subs.len() ==> (#[trigger] subs[i]).youtube_key != (
        #[trigger] subs[j]).youtube_key
}

impl YoutubeSchema {
    /// Guild ids occur once, and within one guild each channel key occurs
    /// once. The constructor establishes this and every method keeps it.
    pub open spec fn wf(&self) -> bool {
        let gv = guilds_view(self.guilds@);
        &&& (forall|i: int, j: int|
            0 <= i < j < gv.len() ==> (#[trigger] gv[i]).0 != (#[trigger] gv[j]).0)
        &&& (forall|i: int| 0 <= i < gv.len() ==> keys_distinct((#[trigger] gv[i]).1))
    }
}

impl YoutubeSchema {
    pub fn new() -> (r: YoutubeSchema)
        ensures
            r.guilds@.len() == 0,
            r.last_notified@.len() == 0,
            r.wf(),
    {
        YoutubeSchema { guilds: Vec::new(), last_notified: Vec::new() }
    }

    /// Adds or replaces the guild's subscription under the new entry's key.
    #[verifier::loop_isolation(false)]
    pub fn upsert_subscription(&mut self, guild_id: u64, sub: YouTubeSubscription)
        requires
            old(self).wf(),
        ensures
            final(self).wf(),
            find_sub(*final(self), guild_id, sub.youtube_key@) == Some(sub@),
            forall|g2: u64|
                g2 != guild_id ==> find_guild(guilds_view(final(self).guilds@), g2) == find_guild(
                    guilds_view(old(self).guilds@),
                    g2,
                ),
            forall|k2: Seq<char>|
                k2 != sub.youtube_key@ ==> find_sub(*final(self), guild_id, k2) == find_sub(
                    *old(self),
                    guild_id,
                    k2,
                ),
            final(self).last_notified == old(self).last_notified,
    {
        let n = self.guilds.len();
        let mut gi: usize = 0;
        let mut found_guild = false;
        while gi < n && !found_guild
            invariant
                gi <= n,
                n == self.guilds@.len(),
                *self == *old(self),
                forall|j: int| 0 <= j < gi ==> (#[trigger] self.guilds@[j]).0 != guild_id,
                found_guild ==> gi < n && self.guilds@[gi as int].0 == guild_id,
            decreases n - gi, (if found_guild { 0int } else { 1int }),
        {
            if self.guilds[gi].0 == guild_id {
                found_guild = true;
            } else {
                gi += 1;
            }
        }
        if !found_guild {
            let mut subs: Vec<YouTubeSubscription> = Vec::new();
            let ghost subv = sub@;
            subs.push(sub);
            let ghost before = self.guilds@;
            self.guilds.push((guild_id, subs));
            proof {
                let gv = guilds_view(self.guilds@);
                let gv0 = guilds_view(before);
                assert(gv.len() == before.len() + 1);
                assert forall|j: int| 0 <= j < before.len() implies gv[j] == gv0[j] by {
                    assert(self.guilds@[j] == before[j]);
                }
                assert forall|j: int| 0 <= j < before.len() implies (#[trigger] gv0[j]).0
                    != guild_id by {
                    assert(before[j].0 != guild_id);
                }
                lemma_find_guild_absent_push(gv0, gv, guild_id);
                assert(gv[before.len() as int].1 =~= seq![subv]);
                assert(find_key_sub(seq![subv], subv.youtube_key) == Some(subv));
                assert forall|i: int, j: int|
                    0 <= i < j < gv.len() implies (#[trigger] gv[i]).0 != (#[trigger] gv[j]).0 by {
                    if j < before.len() {
                    } else {
                        assert(gv[i].0 == before[i].0 && before[i].0 != guild_id);
                    }
                }
                assert forall|i: int| 0 <= i < gv.len() implies keys_distinct(
                    (#[trigger] gv[i]).1,
                ) by {
                    if i < before.len() {
                        assert(gv0[i].1 == gv[i].1);
                    } else {
                        assert(gv[i].1 =~= seq![subv]);
                    }
                }
                lemma_find_guild_all_miss(gv0, guild_id);
                assert forall|g2: u64|
                    g2 != guild_id implies find_guild(gv, g2) == find_guild(gv0, g2) by {
                    lemma_find_guild_push_other(gv0, gv, guild_id, g2);
                }
                assert forall|k2: Seq<char>|
                    k2 != subv.youtube_key implies find_sub(*self, guild_id, k2) == find_sub(
                    *old(self),
                    guild_id,
                    k2,
                ) by {
                    assert(find_guild(gv, guild_id) == Some(gv[before.len() as int].1));
                    assert(gv[before.len() as int].1 == seq![subv]);
                    assert(seq![subv].drop_first() =~= Seq::<SubV>::empty());
                    assert(find_key_sub(Seq::<SubV>::empty(), k2) is None);
                    assert(find_key_sub(seq![subv], k2) is None);
                }
            }
        } else {
            let ghost before = self.guilds@;
            let mut slot: (u64, Vec<YouTubeSubscription>) = (0, Vec::new());
            self.guilds.set_and_swap(gi, &mut slot);
            let (gid_k, mut subs) = slot;
            proof {
                assert(gid_k == guild_id);
            }
            let ghost subs0 = subs@;
            let m = subs.len();
            let mut si: usize = 0;
            let mut found_key = false;
            while si < m && !found_key
                invariant
                    si <= m,
                    m == subs@.len(),
                    subs@ == subs0,
                    forall|j: int|
                        0 <= j < si ==> (#[trigger] subs@[j]).youtube_key@ != sub.youtube_key@,
                    found_key ==> si < m && subs@[si as int].youtube_key@ == sub.youtube_key@,
                decreases m - si, (if found_key { 0int } else { 1int }),
            {
                if str_eq(subs[si].youtube_key.as_str(), sub.youtube_key.as_str()) {
                    found_key = true;
                } else {
                    si += 1;
                }
            }
            let ghost subv = sub@;
            let ghost keyv = sub.youtube_key@;
            if found_key {
                let ghost pre = subs@;
                subs.set(si, sub);
                proof {
                    assert forall|j: int|
                        0 <= j < pre.len() && j != si implies #[trigger] subs_view(subs@)[j]
                            == subs_view(pre)[j] by {
                        assert(subs@[j] == pre[j]);
                    }
                    assert forall|j: int| 0 <= j < si implies (#[trigger] subs_view(pre)[
                        j
                    ]).youtube_key != keyv by {
                        assert(pre[j].youtube_key@ != keyv);
                    }
                    lemma_find_key_at(subs_view(pre), subs_view(subs@), keyv, si as int);
                }
            } else {
                let ghost pre = subs@;
                subs.push(sub);
                proof {
                    assert forall|j: int| 0 <= j < pre.len() implies (#[trigger] subs_view(pre)[
                        j
                    ]).youtube_key != keyv by {
                        assert(pre[j].youtube_key@ != keyv);
                    }
                    assert forall|j: int| 0 <= j < pre.len() implies #[trigger] subs_view(subs@)[j]
                        == subs_view(pre)[j] by {
                        assert(subs@[j] == pre[j]);
                    }
                    lemma_find_key_absent_push(subs_view(pre), subs_view(subs@), keyv);
                }
            }
            let ghost newsubs = subs_view(subs@);
            let ghost oldsubs = subs_view(subs0);
            self.guilds.set(gi, (gid_k, subs));
            proof {
                assert(find_key_sub(newsubs, keyv) == Some(subv));
                let gv = guilds_view(self.guilds@);
                let gv0 = guilds_view(before);
                assert(gv[gi as int] == (guild_id, newsubs));
                assert forall|j: int|
                    0 <= j < gv.len() && j != gi implies #[trigger] gv[j] == gv0[j] by {
                    assert(self.guilds@[j] == before[j]);
                }
                assert forall|j: int| 0 <= j < gi implies (#[trigger] gv[j]).0 != guild_id by {
                    assert(before[j].0 != guild_id);
                }
                lemma_find_guild_at(gv, guild_id, gi as int);
                assert(gv0[gi as int] == (guild_id, oldsubs));
                assert(keys_distinct(oldsubs));
                assert forall|i: int, j: int|
                    0 <= i < j < newsubs.len() implies (#[trigger] newsubs[i]).youtube_key != (
                    #[trigger] newsubs[j]).youtube_key by {
                    if found_key {
                        if i == si {
                            assert(newsubs[j] == oldsubs[j]);
                            assert(oldsubs[j].youtube_key != oldsubs[si as int].youtube_key);
                            assert(oldsubs[si as int].youtube_key == keyv);
                        } else if j == si {
                            assert(newsubs[i] == oldsubs[i]);
                            assert(oldsubs[i].youtube_key != oldsubs[si as int].youtube_key);
                            assert(oldsubs[si as int].youtube_key == keyv);
                        } else {
                            assert(newsubs[i] == oldsubs[i] && newsubs[j] == oldsubs[j]);
                        }
                    } else {
                        if j == oldsubs.len() {
                            assert(newsubs[i] == oldsubs[i]);
                            assert(oldsubs[i].youtube_key != keyv);
                        } else {
                            assert(newsubs[i] == oldsubs[i] && newsubs[j] == oldsubs[j]);
                        }
                    }
                }
                assert forall|i: int, j: int|
                    0 <= i < j < gv.len() implies (#[trigger] gv[i]).0 != (#[trigger] gv[j]).0 by {
                    assert(gv[i].0 == gv0[i].0 && gv[j].0 == gv0[j].0);
                }
                assert forall|i: int| 0 <= i < gv.len() implies keys_distinct(
                    (#[trigger] gv[i]).1,
                ) by {
                    if i != gi {
                        assert(gv[i].1 == gv0[i].1);
                        assert(keys_distinct(gv0[i].1));
                    }
                }
                assert forall|j: int| 0 <= j < gi implies (#[trigger] gv0[j]).0 != guild_id by {
                    assert(before[j].0 != guild_id);
                }
                assert(gv0[gi as int] == (guild_id, oldsubs));
                lemma_find_guild_at(gv0, guild_id, gi as int);
                assert forall|g2: u64|
                    g2 != guild_id implies find_guild(gv, g2) == find_guild(gv0, g2) by {
                    lemma_find_guild_update_same(gv0, gv, gi as int, g2);
                }
                assert forall|k2: Seq<char>|
                    k2 != keyv implies find_sub(*self, guild_id, k2) == find_sub(
                    *old(self),
                    guild_id,
                    k2,
                ) by {
                    if found_key {
                        assert(oldsubs[si as int].youtube_key == keyv);
                        assert(newsubs[si as int].youtube_key == keyv);
                        lemma_find_key_update_other(oldsubs, newsubs, si as int, k2);
                    } else {
                        assert(newsubs[oldsubs.len() as int].youtube_key == keyv);
                        lemma_find_key_push_other(oldsubs, newsubs, k2);
                    }
                }
            }
        }
    }

    /// Drops the guild's subscription under this key; says whether one was
    /// there.
    #[verifier::loop_isolation(false)]
    pub fn remove_subscription(&mut self, guild_id: u64, youtube_key: &str) -> (r: bool)
        requires
            old(self).wf(),
        ensures
            final(self).wf(),
            r == (find_sub(*old(self), guild_id, youtube_key@) is Some),
            find_sub(*final(self), guild_id, youtube_key@) is None,
            forall|g2: u64|
                g2 != guild_id ==> find_guild(guilds_view(final(self).guilds@), g2) == find_guild(
                    guilds_view(old(self).guilds@),
                    g2,
                ),
            forall|k2: Seq<char>|
                k2 != youtube_key@ ==> find_sub(*final(self), guild_id, k2) == find_sub(
                    *old(self),
                    guild_id,
                    k2,
                ),
            final(self).last_notified == old(self).last_notified,
    {
        let n = self.guilds.len();
        let mut gi: usize = 0;
        while gi < n
            invariant
                gi <= n,
                n == self.guilds@.len(),
                *self == *old(self),
                forall|j: int| 0 <= j < gi ==> (#[trigger] self.guilds@[j]).0 != guild_id,
            decreases n - gi,
        {
            if self.guilds[gi].0 == guild_id {
                let ghost before = self.guilds@;
                let mut slot: (u64, Vec<YouTubeSubscription>) = (0, Vec::new());
                self.guilds.set_and_swap(gi, &mut slot);
                let (gid_k, mut subs) = slot;
                let ghost subs0 = subs_view(subs@);
                proof {
                    assert forall|j: int| 0 <= j < gi implies (#[trigger] guilds_view(before)[
                        j
                    ]).0 != guild_id by {
                        assert(before[j].0 != guild_id);
                    }
                    lemma_find_guild_at(guilds_view(before), guild_id, gi as int);
                    assert(guilds_view(before)[gi as int] == (guild_id, subs0));
                    assert(before == old(self).guilds@);
                    assert(keys_distinct(guilds_view(old(self).guilds@)[gi as int].1));
                    assert(keys_distinct(subs0));
                }
                let m = subs.len();
                let mut si: usize = 0;
                let mut found_key = false;
                while si < m && !found_key
                    invariant
                        si <= m,
                        m == subs@.len(),
                        subs_view(subs@) == subs0,
                        forall|j: int|
                            0 <= j < si ==> (#[trigger] subs@[j]).youtube_key@ != youtube_key@,
                        found_key ==> si < m && subs@[si as int].youtube_key@ == youtube_key@,
                    decreases m - si, (if found_key { 0int } else { 1int }),
                {
                    if str_eq(subs[si].youtube_key.as_str(), youtube_key) {
                        found_key = true;
                    } else {
                        si += 1;
                    }
                }
                if found_key {
                    let ghost prevec = subs@;
                    let _ = subs.remove(si);
                    proof {
                        assert forall|j: int| 0 <= j < si implies (#[trigger] subs0[
                            j
                        ]).youtube_key != youtube_key@ by {
                            assert(prevec[j].youtube_key@ != youtube_key@);
                        }
                        lemma_find_key_at_found(subs0, youtube_key@, si as int);
                        let post = subs_view(subs@);
                        assert forall|j: int| 0 <= j < post.len() implies (#[trigger] post[
                            j
                        ]).youtube_key != youtube_key@ by {
                            if j < si {
                                assert(subs@[j] == prevec[j]);
                                assert(post[j] == subs0[j]);
                            } else {
                                assert(subs@[j] == prevec[j + 1]);
                                assert(post[j] == subs0[j + 1]);
                                assert(subs0[si as int].youtube_key == youtube_key@);
                                assert(subs0[j + 1].youtube_key != subs0[si as int].youtube_key);
                            }
                        }
                        lemma_find_key_all_miss(post, youtube_key@);
                        assert forall|i2: int, j2: int|
                            0 <= i2 < j2 < post.len() implies (#[trigger] post[i2]).youtube_key
                                != (#[trigger] post[j2]).youtube_key by {
                            let pi = if i2 < si { i2 } else { i2 + 1 };
                            let pj = if j2 < si { j2 } else { j2 + 1 };
                            assert(post[i2] == subs0[pi]);
                            assert(post[j2] == subs0[pj]);
                        }
                    }
                } else {
                    proof {
                        assert forall|j: int| 0 <= j < subs0.len() implies (#[trigger] subs0[
                            j
                        ]).youtube_key != youtube_key@ by {
                            assert(subs@[j].youtube_key@ != youtube_key@);
                        }
                        lemma_find_key_all_miss(subs0, youtube_key@);
                    }
                }
                let ghost newsubs = subs_view(subs@);
                self.guilds.set(gi, (gid_k, subs));
                proof {
                    let gv = guilds_view(self.guilds@);
                    let gv0 = guilds_view(before);
                    assert(gv[gi as int] == (guild_id, newsubs));
                    assert forall|j: int|
                        0 <= j < gv.len() && j != gi implies #[trigger] gv[j] == gv0[j] by {
                        assert(self.guilds@[j] == before[j]);
                    }
                    assert forall|j: int| 0 <= j < gi implies (#[trigger] gv[j]).0
                        != guild_id by {
                        assert(before[j].0 != guild_id);
                    }
                    lemma_find_guild_at(gv, guild_id, gi as int);
                    assert(find_key_sub(newsubs, youtube_key@) is None);
                    assert(before == old(self).guilds@);
                    assert forall|j: int| 0 <= j < gi implies (#[trigger] gv0[j]).0
                        != guild_id by {
                        assert(before[j].0 != guild_id);
                    }
                    assert(gv0[gi as int] == (guild_id, subs0));
                    lemma_find_guild_at(gv0, guild_id, gi as int);
                    assert forall|g2: u64|
                        g2 != guild_id implies find_guild(gv, g2) == find_guild(gv0, g2) by {
                        lemma_find_guild_update_same(gv0, gv, gi as int, g2);
                    }
                    assert forall|k2: Seq<char>|
                        k2 != youtube_key@ implies find_sub(*self, guild_id, k2) == find_sub(
                        *old(self),
                        guild_id,
                        k2,
                    ) by {
                        if found_key {
                            lemma_find_key_remove_other(subs0, subs_view(subs@), si as int, k2);
                            assert(newsubs == subs_view(subs@));
                        } else {
                            assert(newsubs == subs0);
                        }
                    }
                    assert forall|i2: int, j2: int|
                        0 <= i2 < j2 < gv.len() implies (#[trigger] gv[i2]).0 != (
                        #[trigger] gv[j2]).0 by {
                        if i2 == gi {
                            assert(gv[i2].0 == guild_id && gv0[i2].0 == guild_id);
                        } else {
                            assert(gv[i2] == gv0[i2]);
                        }
                        if j2 == gi {
                            assert(gv[j2].0 == guild_id && gv0[j2].0 == guild_id);
                        } else {
                            assert(gv[j2] == gv0[j2]);
                        }
                        assert((#[trigger] gv0[i2]).0 != (#[trigger] gv0[j2]).0);
                    }
                    assert forall|i2: int| 0 <= i2 < gv.len() implies keys_distinct(
                        (#[trigger] gv[i2]).1,
                    ) by {
                        if i2 != gi {
                            assert(gv[i2].1 == gv0[i2].1);
                            assert(keys_distinct(gv0[i2].1));
                        } else {
                            assert(gv[gi as int].1 == newsubs);
                        }
                    }
                }
                return found_key;
            }
            gi += 1;
        }
        proof {
            assert forall|j: int|
                0 <= j < guilds_view(self.guilds@).len() implies (#[trigger] guilds_view(
                self.guilds@,
            )[j]).0 != guild_id by {
                assert(self.guilds@[j].0 != guild_id);
            }
            lemma_find_guild_all_miss(guilds_view(self.guilds@), guild_id);
        }
        false
    }

    /// The guild's subscriptions, if it has any entry.
    #[verifier::loop_isolation(false)]
    pub fn list_guild(&self, guild_id: u64) -> (r: Option<&Vec<YouTubeSubscription>>)
        ensures
            match r {
                Some(v) => find_guild(guilds_view(self.guilds@), guild_id) == Some(subs_view(v@)),
                None => find_guild(guilds_view(self.guilds@), guild_id) is None,
            },
    {
        let n = self.guilds.len();
        let mut gi: usize = 0;
        while gi < n
            invariant
                gi <= n,
                n == self.guilds@.len(),
                forall|j: int| 0 <= j < gi ==> (#[trigger] self.guilds@[j]).0 != guild_id,
            decreases n - gi,
        {
            if self.guilds[gi].0 == guild_id {
                proof {
                    assert forall|j: int|
                        0 <= j < gi implies (#[trigger] guilds_view(self.guilds@)[j]).0
                            != guild_id by {
                        assert(self.guilds@[j].0 != guild_id);
                    }
                    lemma_find_guild_at(guilds_view(self.guilds@), guild_id, gi as int);
                }
                return Some(&self.guilds[gi].1);
            }
            gi += 1;
        }
        proof {
            assert forall|j: int|
                0 <= j < guilds_view(self.guilds@).len() implies (#[trigger] guilds_view(
                self.guilds@,
            )[j]).0 != guild_id by {
                assert(self.guilds@[j].0 != guild_id);
            }
            lemma_find_guild_all_miss(guilds_view(self.guilds@), guild_id);
        }
        None
    }
}

proof fn lemma_find_guild_at(gs: Seq<(u64, Seq<SubV>)>, gid: u64, i: int)
    requires
        0 <= i < gs.len(),
        gs[i].0 == gid,
        forall|j: int| 0 <= j < i ==> (#[trigger] gs[j]).0 != gid,
    ensures
        find_guild(gs, gid) == Some(gs[i].1),
    decreases i,
{
    if i > 0 {
        lemma_find_guild_at(gs.drop_first(), gid, i - 1);
        assert(gs.drop_first()[i - 1] == gs[i]);
    }
}

proof fn lemma_find_guild_all_miss(gs: Seq<(u64, Seq<SubV>)>, gid: u64)
    requires
        forall|j: int| 0 <= j < gs.len() ==> (#[trigger] gs[j]).0 != gid,
    ensures
        find_guild(gs, gid) is None,
    decreases gs.len(),
{
    if gs.len() > 0 {
        lemma_find_guild_all_miss(gs.drop_first(), gid);
    }
}

proof fn lemma_find_guild_absent_push(gs: Seq<(u64, Seq<SubV>)>, gs2: Seq<(u64, Seq<SubV>)>, gid: u64)
    requires
        forall|j: int| 0 <= j < gs.len() ==> (#[trigger] gs[j]).0 != gid,
        gs2.len() == gs.len() + 1,
        forall|j: int| 0 <= j < gs.len() ==> #[trigger] gs2[j] == gs[j],
        gs2[gs.len() as int].0 == gid,
    ensures
        find_guild(gs2, gid) == Some(gs2[gs.len() as int].1),
    decreases gs.len(),
{
    if gs.len() == 0 {
    } else {
        lemma_find_guild_absent_push(gs.drop_first(), gs2.drop_first(), gid);
        assert(gs2.drop_first()[gs.len() - 1] == gs2[gs.len() as int]);
    }
}

proof fn lemma_find_key_at(pre: Seq<SubV>, post: Seq<SubV>, key: Seq<char>, i: int)
    requires
        0 <= i < pre.len(),
        post.len() == pre.len(),
        forall|j: int| 0 <= j < pre.len() && j != i ==> #[trigger] post[j] == pre[j],
        forall|j: int| 0 <= j < i ==> (#[trigger] pre[j]).youtube_key != key,
        post[i].youtube_key == key,
    ensures
        find_key_sub(post, key) == Some(post[i]),
    decreases i,
{
    if i > 0 {
        lemma_find_key_at(pre.drop_first(), post.drop_first(), key, i - 1);
        assert(post.drop_first()[i - 1] == post[i]);
        assert(post[0] == pre[0]);
    }
}

proof fn lemma_find_key_absent_push(pre: Seq<SubV>, post: Seq<SubV>, key: Seq<char>)
    requires
        forall|j: int| 0 <= j < pre.len() ==> (#[trigger] pre[j]).youtube_key != key,
        post.len() == pre.len() + 1,
        forall|j: int| 0 <= j < pre.len() ==> #[trigger] post[j] == pre[j],
        post[pre.len() as int].youtube_key == key,
    ensures
        find_key_sub(post, key) == Some(post[pre.len() as int]),
    decreases pre.len(),
{
    if pre.len() > 0 {
        lemma_find_key_absent_push(pre.drop_first(), post.drop_first(), key);
        assert(post.drop_first()[pre.len() - 1] == post[pre.len() as int]);
    }
}

proof fn lemma_find_key_at_found(pre: Seq<SubV>, key: Seq<char>, i: int)
    requires
        0 <= i < pre.len(),
        pre[i].youtube_key == key,
        forall|j: int| 0 <= j < i ==> (#[trigger] pre[j]).youtube_key != key,
    ensures
        find_key_sub(pre, key) == Some(pre[i]),
    decreases i,
{
    if i > 0 {
        lemma_find_key_at_found(pre.drop_first(), key, i - 1);
        assert(pre.drop_first()[i - 1] == pre[i]);
    }
}

proof fn lemma_find_key_all_miss(subs: Seq<SubV>, key: Seq<char>)
    requires
        forall|j: int| 0 <= j < subs.len() ==> (#[trigger] subs[j]).youtube_key != key,
    ensures
        find_key_sub(subs, key) is None,
    decreases subs.len(),
{
    if subs.len() > 0 {
        lemma_find_key_all_miss(subs.drop_first(), key);
    }
}


proof fn lemma_find_guild_push_other(
    gs: Seq<(u64, Seq<SubV>)>,
    gs2: Seq<(u64, Seq<SubV>)>,
    gid: u64,
    g2: u64,
)
    requires
        gs2.len() == gs.len() + 1,
        forall|j: int| 0 <= j < gs.len() ==> #[trigger] gs2[j] == gs[j],
        gs2[gs.len() as int].0 == gid,
        g2 != gid,
    ensures
        find_guild(gs2, g2) == find_guild(gs, g2),
    decreases gs.len(),
{
    if gs.len() == 0 {
    } else {
        lemma_find_guild_push_other(gs.drop_first(), gs2.drop_first(), gid, g2);
        assert(gs2.drop_first()[gs.len() - 1] == gs2[gs.len() as int]);
        assert(gs2[0] == gs[0]);
    }
}

proof fn lemma_find_guild_update_same(
    gs1: Seq<(u64, Seq<SubV>)>,
    gs2: Seq<(u64, Seq<SubV>)>,
    i: int,
    g2: u64,
)
    requires
        0 <= i < gs1.len(),
        gs2.len() == gs1.len(),
        forall|j: int| 0 <= j < gs1.len() && j != i ==> #[trigger] gs2[j] == gs1[j],
        gs1[i].0 == gs2[i].0,
        gs2[i].0 != g2,
    ensures
        find_guild(gs2, g2) == find_guild(gs1, g2),
    decreases i,
{
    if i == 0 {
        assert(gs1.drop_first() =~= gs2.drop_first());
    } else {
        lemma_find_guild_update_same(gs1.drop_first(), gs2.drop_first(), i - 1, g2);
        assert(gs1.drop_first()[i - 1] == gs1[i]);
        assert(gs2.drop_first()[i - 1] == gs2[i]);
        assert(gs2[0] == gs1[0]);
    }
}

proof fn lemma_find_key_push_other(pre: Seq<SubV>, post: Seq<SubV>, k2: Seq<char>)
    requires
        post.len() == pre.len() + 1,
        forall|j: int| 0 <= j < pre.len() ==> #[trigger] post[j] == pre[j],
        post[pre.len() as int].youtube_key != k2,
    ensures
        find_key_sub(post, k2) == find_key_sub(pre, k2),
    decreases pre.len(),
{
    if pre.len() == 0 {
    } else {
        lemma_find_key_push_other(pre.drop_first(), post.drop_first(), k2);
        assert(post.drop_first()[pre.len() - 1] == post[pre.len() as int]);
        assert(post[0] == pre[0]);
    }
}

proof fn lemma_find_key_update_other(pre: Seq<SubV>, post: Seq<SubV>, i: int, k2: Seq<char>)
    requires
        0 <= i < pre.len(),
        post.len() == pre.len(),
        forall|j: int| 0 <= j < pre.len() && j != i ==> #[trigger] post[j] == pre[j],
        pre[i].youtube_key == post[i].youtube_key,
        post[i].youtube_key != k2,
    ensures
        find_key_sub(post, k2) == find_key_sub(pre, k2),
    decreases i,
{
    if i == 0 {
        assert(pre.drop_first() =~= post.drop_first());
    } else {
        lemma_find_key_update_other(pre.drop_first(), post.drop_first(), i - 1, k2);
        assert(pre.drop_first()[i - 1] == pre[i]);
        assert(post.drop_first()[i - 1] == post[i]);
        assert(post[0] == pre[0]);
    }
}

proof fn lemma_find_key_remove_other(pre: Seq<SubV>, post: Seq<SubV>, i: int, k2: Seq<char>)
    requires
        0 <= i < pre.len(),
        post.len() == pre.len() - 1,
        forall|j: int| 0 <= j < i ==> #[trigger] post[j] == pre[j],
        forall|j: int| i <= j < post.len() ==> #[trigger] post[j] == pre[j + 1],
        pre[i].youtube_key != k2,
    ensures
        find_key_sub(post, k2) == find_key_sub(pre, k2),
    decreases i,
{
    if i == 0 {
        assert(post =~= pre.drop_first());
    } else {
        lemma_find_key_remove_other(pre.drop_first(), post.drop_first(), i - 1, k2);
        assert(pre.drop_first()[i - 1] == pre[i]);
        assert forall|j: int| i - 1 <= j < post.drop_first().len() implies #[trigger] post.drop_first()[
            j
        ] == pre.drop_first()[j + 1] by {
            assert(post.drop_first()[j] == post[j + 1]);
            assert(pre.drop_first()[j + 1] == pre[j + 2]);
            assert(post[j + 1] == pre[j + 2]);
        }
        assert(post[0] == pre[0]);
    }
}

/// The normalized lookup key for a channel identifier: trimmed, with ASCII
/// letters lowered.
pub fn normalize_youtube_id(input: &str) -> (r: String)
    ensures
        r@ == ascii_lower_of(trim_of(input@)),
{
    let t = trim(input);
    ascii_lower(t.as_str())
}

} // verus!
