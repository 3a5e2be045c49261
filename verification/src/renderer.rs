//! What the live composite shows: one tile per participant, the dominant
//! speaker enlarged, and which SSRC belongs to whom. The pipeline elements
//! behind each tile are built and torn down by the caller, following the
//! decisions taken here.

use crate::layout::{layout_of, LayoutEngine, TileContent, TileRect};
use crate::text::chars_of;
use std::collections::HashMap;
use vstd::prelude::*;

verus! {

/// One participant's tile, as the layout sees it.
#[derive(Debug)]
pub struct Tile {
    pub endpoint: String,
    pub nickname: String,
    pub content: TileContent,
    pub has_screenshare: bool,
    pub video_muted: bool,
    pub audio_muted: bool,
}

/// A tile as plain values.
pub struct TileView {
    pub endpoint: Seq<char>,
    pub nickname: Seq<char>,
    pub content: TileContent,
    pub has_screenshare: bool,
    pub video_muted: bool,
    pub audio_muted: bool,
}

impl View for Tile {
    type V = TileView;

    open spec fn view(&self) -> TileView {
        TileView {
            endpoint: self.endpoint@,
            nickname: self.nickname@,
            content: self.content,
            has_screenshare: self.has_screenshare,
            video_muted: self.video_muted,
            audio_muted: self.audio_muted,
        }
    }
}

impl Tile {
    /// A fresh tile shows the black stand-in and no screenshare.
    pub fn new(endpoint: String, nickname: String, video_muted: bool, audio_muted: bool) -> (r: Self)
        ensures
            r@ == (TileView {
                endpoint: endpoint@,
                nickname: nickname@,
                content: TileContent::BlackTile,
                has_screenshare: false,
                video_muted,
                audio_muted,
            }),
    {
        Tile {
            endpoint,
            nickname,
            content: TileContent::BlackTile,
            has_screenshare: false,
            video_muted,
            audio_muted,
        }
    }
}

/// The views of a list of tiles.
pub open spec fn tile_views(tiles: Seq<Tile>) -> Seq<TileView> {
    tiles.map_values(|t: Tile| t@)
}

/// Whether some tile belongs to `ep`.
pub open spec fn has_tile(tiles: Seq<TileView>, ep: Seq<char>) -> bool {
    exists|i: int| 0 <= i < tiles.len() && #[trigger] tiles[i].endpoint == ep
}

/// No endpoint has two tiles.
pub open spec fn distinct_endpoints(tiles: Seq<TileView>) -> bool {
    forall|i: int, j: int|
        0 <= i < j < tiles.len() ==> #[trigger] tiles[i].endpoint != #[trigger] tiles[j].endpoint
}

/// The tiles with `f` applied to the one of `ep`.
pub open spec fn map_tile(
    tiles: Seq<TileView>,
    ep: Seq<char>,
    f: spec_fn(TileView) -> TileView,
) -> Seq<TileView> {
    tiles.map_values(|t: TileView| if t.endpoint == ep { f(t) } else { t })
}

/// The tiles without the one of `ep`.
pub open spec fn without_tile(tiles: Seq<TileView>, ep: Seq<char>) -> Seq<TileView> {
    tiles.filter(|t: TileView| t.endpoint != ep)
}

/// `t` with new mute flags and screenshare state.
pub open spec fn with_flags(t: TileView, video_muted: bool, audio_muted: bool, has_screenshare: bool) -> TileView {
    TileView { video_muted, audio_muted, has_screenshare, ..t }
}

/// `t` showing `c`.
pub open spec fn with_content(t: TileView, c: TileContent) -> TileView {
    TileView { content: c, ..t }
}

/// `t` with its screenshare present or not.
pub open spec fn with_share(t: TileView, b: bool) -> TileView {
    TileView { has_screenshare: b, ..t }
}

/// Whether a source name is that of a screenshare: it ends in `-v1`.
pub open spec fn is_share_name(name: Seq<char>) -> bool {
    name.len() >= 3 && name.subrange(name.len() - 3, name.len() as int) == seq!['-', 'v', '1']
}

/// The SSRC table as a map from SSRC to endpoint and screenshare flag.
pub open spec fn ssrc_table(m: Map<u32, (String, bool)>) -> Map<u32, (Seq<char>, bool)> {
    m.map_values(|v: (String, bool)| (v.0@, v.1))
}

/// What a change of dominant speaker asks of the pipeline: the endpoint whose
/// enlarged view is to be released, and whether the new speaker gets one.
#[derive(Debug)]
pub struct Promotion {
    pub demote: Option<String>,
    pub promote: bool,
}

/// What a mute update asks of the pipeline.
#[derive(Debug, Clone, Copy, PartialEq, Eq)]
pub enum SourceUpdate {
    /// No tile belongs to the endpoint; nothing changes.
    UnknownEndpoint,
    /// The camera went off while shown: rebuild the black stand-in, then
    /// redo the layout.
    SwapToBlack,
    /// Redo the layout.
    Relayout,
}

/// Tiles, SSRC ownership and the dominant speaker of the live composite.
#[derive(Debug)]
pub struct RendererEngine {
    tiles: Vec<Tile>,
    ssrc_map: HashMap<u32, (String, bool)>,
    dominant_speaker: Option<String>,
}

impl RendererEngine {
    /// The tiles, in the order they were added.
    pub closed spec fn tiles(&self) -> Seq<TileView> {
        tile_views(self.tiles@)
    }

    /// Which endpoint, and whether as a screenshare, each SSRC carries.
    pub closed spec fn ssrcs(&self) -> Map<u32, (Seq<char>, bool)> {
        ssrc_table(self.ssrc_map@)
    }

    /// The current dominant speaker.
    pub closed spec fn dominant(&self) -> Option<Seq<char>> {
        match self.dominant_speaker {
            Some(d) => Some(d@),
            None => None,
        }
    }

    /// The engine's invariant: one tile per endpoint.
    pub closed spec fn wf(&self) -> bool {
        distinct_endpoints(self.tiles())
    }

    /// No tiles, no SSRCs, no dominant speaker.
    pub fn new() -> (r: Self)
        ensures
            r.wf(),
            r.tiles() == Seq::<TileView>::empty(),
            r.ssrcs() == Map::<u32, (Seq<char>, bool)>::empty(),
            r.dominant() is None,
    {
        let r = RendererEngine { tiles: Vec::new(), ssrc_map: HashMap::new(), dominant_speaker: None };
        assert(r.tiles() =~= Seq::<TileView>::empty());
        r
    }

    /// The index of the tile of `ep`.
    fn find_tile(&self, ep: &str) -> (r: Option<usize>)
        ensures
            match r {
                Some(i) => i < self.tiles().len() && self.tiles()[i as int].endpoint == ep@,
                None => !has_tile(self.tiles(), ep@),
            },
    {
        let target = String::from_str(ep);
        let mut i: usize = 0;
        while i < self.tiles.len()
            invariant
                i <= self.tiles@.len(),
                target@ == ep@,
                forall|j: int| 0 <= j < i ==> self.tiles@[j].endpoint@ != ep@,
            decreases self.tiles@.len() - i,
        {
            if self.tiles[i].endpoint == target {
                return Some(i);
            }
            i += 1;
        }
        proof {
            assert forall|j: int| 0 <= j < self.tiles().len() implies #[trigger] self.tiles()[j].endpoint
                != ep@ by {
                assert(self.tiles()[j] == self.tiles@[j]@);
            }
        }
        None
    }

    /// Whether `ep` already has a tile: a join for it is then ignored.
    pub fn has_tile(&self, ep: &str) -> (r: bool)
        ensures
            r == has_tile(self.tiles(), ep@),
    {
        self.find_tile(ep).is_some()
    }

    /// The dominant speaker becomes `ep`. The previous one, if another
    /// endpoint with a tile, loses its enlarged view; `ep` gets one when it
    /// has a tile.
    pub fn promote_to_dominant(&mut self, ep: &str) -> (r: Promotion)
        requires
            old(self).wf(),
        ensures
            final(self).wf(),
            final(self).tiles() == old(self).tiles(),
            final(self).ssrcs() == old(self).ssrcs(),
            final(self).dominant() == Some(ep@),
            match old(self).dominant() {
                Some(p) => if p != ep@ && has_tile(old(self).tiles(), p) {
                    r.demote is Some && r.demote->0@ == p
                } else {
                    r.demote is None
                },
                None => r.demote is None,
            },
            r.promote == has_tile(old(self).tiles(), ep@),
    {
        let new_dom = String::from_str(ep);
        let prev = self.dominant_speaker.take();
        self.dominant_speaker = Some(new_dom);
        let demote = match prev {
            Some(p) => {
                let ep_s = String::from_str(ep);
                if !(p == ep_s) && self.has_tile(p.as_str()) {
                    Some(p)
                } else {
                    None
                }
            },
            None => None,
        };
        let promote = self.has_tile(ep);
        Promotion { demote, promote }
    }

    /// A participant whose stand-in tile has been built joins: ignored when
    /// the endpoint already has a tile, otherwise it gets a black tile and,
    /// when nobody is dominant yet, becomes the dominant speaker.
    pub fn on_participant_joined(
        &mut self,
        ep: &str,
        nickname: &str,
        video_muted: bool,
        audio_muted: bool,
    ) -> (r: Option<Promotion>)
        requires
            old(self).wf(),
        ensures
            final(self).wf(),
            final(self).ssrcs() == old(self).ssrcs(),
            has_tile(old(self).tiles(), ep@) ==> r is None && final(self).tiles() == old(self).tiles()
                && final(self).dominant() == old(self).dominant(),
            !has_tile(old(self).tiles(), ep@) ==> {
                &&& final(self).tiles() == old(self).tiles().push(
                    TileView {
                        endpoint: ep@,
                        nickname: nickname@,
                        content: TileContent::BlackTile,
                        has_screenshare: false,
                        video_muted,
                        audio_muted,
                    },
                )
                &&& old(self).dominant() is None ==> final(self).dominant() == Some(ep@) && r
                    is Some && r->0.demote is None && r->0.promote
                &&& old(self).dominant() is Some ==> final(self).dominant() == old(self).dominant()
                    && r is None
            },
    {
        if self.has_tile(ep) {
            return None;
        }
        let tile = Tile::new(String::from_str(ep), String::from_str(nickname), video_muted, audio_muted);
        let ghost before = self.tiles();
        self.tiles.push(tile);
        proof {
            assert(self.tiles() =~= before.push(self.tiles@.last()@));
            assert forall|i: int, j: int|
                0 <= i < j < self.tiles().len() implies #[trigger] self.tiles()[i].endpoint
                != #[trigger] self.tiles()[j].endpoint by {
                if j == self.tiles().len() - 1 {
                    assert(before[i] == self.tiles()[i]);
                }
            }
        }
        if self.dominant_speaker.is_none() {
            proof {
                assert(self.tiles()[self.tiles().len() - 1].endpoint == ep@);
            }
            let p = self.promote_to_dominant(ep);
            Some(p)
        } else {
            None
        }
    }

    /// A participant leaves: their tile, if any, goes. Returns whether there
    /// was one.
    pub fn on_participant_left(&mut self, ep: &str) -> (r: bool)
        requires
            old(self).wf(),
        ensures
            final(self).wf(),
            r == has_tile(old(self).tiles(), ep@),
            final(self).tiles() == without_tile(old(self).tiles(), ep@),
            !has_tile(final(self).tiles(), ep@),
            final(self).ssrcs() == old(self).ssrcs(),
            final(self).dominant() == old(self).dominant(),
    {
        let ghost before = self.tiles();
        match self.find_tile(ep) {
            Some(i) => {
                self.tiles.remove(i);
                proof {
                    let f = |t: TileView| t.endpoint != ep@;
                    assert forall|j: int| 0 <= j < before.len() && j != i implies #[trigger] before[j].endpoint
                        != ep@ by {
                        if j < i {
                            assert(before[j].endpoint != before[i as int].endpoint);
                        } else {
                            assert(before[i as int].endpoint != before[j].endpoint);
                        }
                    }
                    assert(self.tiles() =~= before.remove(i as int));
                    lemma_filter_drops_one(before, ep@, i as int);
                }
                true
            },
            None => {
                proof {
                    lemma_filter_keeps_all(before, ep@);
                }
                false
            },
        }
    }

    /// A mute update for `ep`: its flags are stored, and a camera that goes
    /// off while shown brings the black stand-in back.
    pub fn on_source_info_updated(
        &mut self,
        ep: &str,
        video_muted: bool,
        audio_muted: bool,
        has_screenshare: bool,
    ) -> (r: SourceUpdate)
        requires
            old(self).wf(),
        ensures
            final(self).wf(),
            final(self).ssrcs() == old(self).ssrcs(),
            final(self).dominant() == old(self).dominant(),
            !has_tile(old(self).tiles(), ep@) ==> r == SourceUpdate::UnknownEndpoint
                && final(self).tiles() == old(self).tiles(),
            has_tile(old(self).tiles(), ep@) ==> {
                let swap = |t: TileView|
                    !t.video_muted && video_muted && t.content == TileContent::Camera;
                &&& r == SourceUpdate::SwapToBlack || r == SourceUpdate::Relayout
                &&& final(self).tiles() == map_tile(
                    old(self).tiles(),
                    ep@,
                    |t: TileView|
                        if swap(t) {
                            with_content(
                                with_flags(t, video_muted, audio_muted, has_screenshare),
                                TileContent::BlackTile,
                            )
                        } else {
                            with_flags(t, video_muted, audio_muted, has_screenshare)
                        },
                )
                &&& forall|i: int|
                    0 <= i < old(self).tiles().len() && #[trigger] old(self).tiles()[i].endpoint
                        == ep@ ==> (r == SourceUpdate::SwapToBlack <==> swap(old(self).tiles()[i]))
            },
    {
        let ghost before = self.tiles();
        match self.find_tile(ep) {
            None => SourceUpdate::UnknownEndpoint,
            Some(i) => {
                let prev_video_muted = self.tiles[i].video_muted;
                let showing_camera = match self.tiles[i].content {
                    TileContent::Camera => true,
                    _ => false,
                };
                let swap = !prev_video_muted && video_muted && showing_camera;
                self.tiles[i].video_muted = video_muted;
                self.tiles[i].audio_muted = audio_muted;
                self.tiles[i].has_screenshare = has_screenshare;
                if swap {
                    self.tiles[i].content = TileContent::BlackTile;
                }
                proof {
                    lemma_distinct_unique(before, ep@, i as int);
                    assert(self.tiles() =~= map_tile(
                        before,
                        ep@,
                        |t: TileView|
                            if !t.video_muted && video_muted && t.content == TileContent::Camera {
                                with_content(
                                    with_flags(t, video_muted, audio_muted, has_screenshare),
                                    TileContent::BlackTile,
                                )
                            } else {
                                with_flags(t, video_muted, audio_muted, has_screenshare)
                            },
                    ));
                }
                if swap {
                    SourceUpdate::SwapToBlack
                } else {
                    SourceUpdate::Relayout
                }
            },
        }
    }

    /// Records that `ssrc` carries `ep`'s source `source_name`; a name ending
    /// in `-v1` is a screenshare. A later registration of the same SSRC
    /// replaces the earlier one.
    pub fn register_ssrc(&mut self, ssrc: u32, ep: &str, source_name: &str)
        requires
            old(self).wf(),
        ensures
            final(self).wf(),
            final(self).ssrcs() == old(self).ssrcs().insert(ssrc, (ep@, is_share_name(source_name@))),
            final(self).tiles() == old(self).tiles(),
            final(self).dominant() == old(self).dominant(),
    {
        let cs = chars_of(source_name);
        let n = cs.len();
        let is_share = n >= 3 && cs[n - 3] == '-' && cs[n - 2] == 'v' && cs[n - 1] == '1';
        proof {
            if n >= 3 {
                let tail = source_name@.subrange(n - 3, n as int);
                if is_share {
                    assert(tail =~= seq!['-', 'v', '1']);
                } else {
                    assert(tail[0] == cs@[n - 3] && tail[1] == cs@[n - 2] && tail[2] == cs@[n - 1]);
                }
            }
        }
        self.ssrc_map.insert(ssrc, (String::from_str(ep), is_share));
        proof {
            assert(ssrc_table(self.ssrc_map@) =~= ssrc_table(old(self).ssrc_map@).insert(
                ssrc,
                (ep@, is_share_name(source_name@)),
            ));
        }
    }

    /// The endpoint whose stream `ssrc` carries, if announced.
    pub fn endpoint_for_ssrc(&self, ssrc: u32) -> (r: Option<String>)
        ensures
            match r {
                Some(e) => self.ssrcs().contains_key(ssrc) && e@ == self.ssrcs()[ssrc].0,
                None => !self.ssrcs().contains_key(ssrc),
            },
    {
        match self.ssrc_map.get(&ssrc) {
            Some(v) => Some(v.0.clone()),
            None => None,
        }
    }

    /// Whether `ssrc` was announced as a screenshare; an unknown SSRC is not.
    pub fn is_screenshare_ssrc(&self, ssrc: u32) -> (r: bool)
        ensures
            r == (self.ssrcs().contains_key(ssrc) && self.ssrcs()[ssrc].1),
    {
        match self.ssrc_map.get(&ssrc) {
            Some(v) => v.1,
            None => false,
        }
    }

    /// A video stream of `ep` reaches the composite. A camera stream replaces
    /// the black stand-in; a screenshare, once the compositor has a pad for
    /// it, marks the tile as sharing. Returns whether `ep` has a tile.
    pub fn on_video_stream_arrived(&mut self, ep: &str, is_screenshare: bool) -> (r: bool)
        requires
            old(self).wf(),
        ensures
            final(self).wf(),
            r == has_tile(old(self).tiles(), ep@),
            final(self).ssrcs() == old(self).ssrcs(),
            final(self).dominant() == old(self).dominant(),
            final(self).tiles() == if is_screenshare {
                map_tile(old(self).tiles(), ep@, |t: TileView| with_share(t, true))
            } else {
                map_tile(old(self).tiles(), ep@, |t: TileView| with_content(t, TileContent::Camera))
            },
    {
        let ghost before = self.tiles();
        match self.find_tile(ep) {
            None => {
                proof {
                    lemma_map_absent(before, ep@, |t: TileView| with_share(t, true));
                    lemma_map_absent(before, ep@, |t: TileView| with_content(t, TileContent::Camera));
                }
                false
            },
            Some(i) => {
                if is_screenshare {
                    self.tiles[i].has_screenshare = true;
                } else {
                    self.tiles[i].content = TileContent::Camera;
                }
                proof {
                    lemma_distinct_unique(before, ep@, i as int);
                    if is_screenshare {
                        assert(self.tiles() =~= map_tile(before, ep@, |t: TileView| with_share(t, true)));
                    } else {
                        assert(self.tiles() =~= map_tile(
                            before,
                            ep@,
                            |t: TileView| with_content(t, TileContent::Camera),
                        ));
                    }
                }
                true
            },
        }
    }

    /// A video stream of `ep` ends: a screenshare stops marking the tile, a
    /// camera stream gives way to the black stand-in. Returns whether `ep`
    /// has a tile.
    pub fn on_video_stream_removed(&mut self, ep: &str, is_screenshare: bool) -> (r: bool)
        requires
            old(self).wf(),
        ensures
            final(self).wf(),
            r == has_tile(old(self).tiles(), ep@),
            final(self).ssrcs() == old(self).ssrcs(),
            final(self).dominant() == old(self).dominant(),
            final(self).tiles() == if is_screenshare {
                map_tile(old(self).tiles(), ep@, |t: TileView| with_share(t, false))
            } else {
                map_tile(old(self).tiles(), ep@, |t: TileView| with_content(t, TileContent::BlackTile))
            },
    {
        let ghost before = self.tiles();
        match self.find_tile(ep) {
            None => {
                proof {
                    lemma_map_absent(before, ep@, |t: TileView| with_share(t, false));
                    lemma_map_absent(
                        before,
                        ep@,
                        |t: TileView| with_content(t, TileContent::BlackTile),
                    );
                }
                false
            },
            Some(i) => {
                if is_screenshare {
                    self.tiles[i].has_screenshare = false;
                } else {
                    self.tiles[i].content = TileContent::BlackTile;
                }
                proof {
                    lemma_distinct_unique(before, ep@, i as int);
                    if is_screenshare {
                        assert(self.tiles() =~= map_tile(before, ep@, |t: TileView| with_share(t, false)));
                    } else {
                        assert(self.tiles() =~= map_tile(
                            before,
                            ep@,
                            |t: TileView| with_content(t, TileContent::BlackTile),
                        ));
                    }
                }
                true
            },
        }
    }

    /// The dominant speaker changes to `ep`.
    pub fn on_dominant_speaker(&mut self, ep: &str) -> (r: Promotion)
        requires
            old(self).wf(),
        ensures
            final(self).wf(),
            final(self).tiles() == old(self).tiles(),
            final(self).ssrcs() == old(self).ssrcs(),
            final(self).dominant() == Some(ep@),
            match old(self).dominant() {
                Some(p) => if p != ep@ && has_tile(old(self).tiles(), p) {
                    r.demote is Some && r.demote->0@ == p
                } else {
                    r.demote is None
                },
                None => r.demote is None,
            },
            r.promote == has_tile(old(self).tiles(), ep@),
    {
        self.promote_to_dominant(ep)
    }

    /// Where every tile goes now: each tile's endpoint, screenshare state and
    /// whether it is the dominant speaker's, in tile order, laid out by
    /// [`LayoutEngine::calculate`].
    pub fn layout(&self) -> (r: Vec<TileRect>)
        requires
            self.tiles().len() * 250 <= i32::MAX,
        ensures
            exists|info: Seq<(&String, bool, bool)>|
                {
                    &&& info.len() == self.tiles().len()
                    &&& forall|i: int|
                        0 <= i < info.len() ==> {
                            &&& (#[trigger] info[i]).0@ == self.tiles()[i].endpoint
                            &&& info[i].1 == self.tiles()[i].has_screenshare
                            &&& info[i].2 == (self.dominant() == Some(self.tiles()[i].endpoint))
                        }
                    &&& layout_of(info, self.dominant(), r@)
                },
    {
        let mut info: Vec<(&String, bool, bool)> = Vec::new();
        let mut i: usize = 0;
        while i < self.tiles.len()
            invariant
                i <= self.tiles@.len(),
                info@.len() == i,
                forall|k: int|
                    0 <= k < i ==> {
                        &&& (#[trigger] info@[k]).0@ == self.tiles()[k].endpoint
                        &&& info@[k].1 == self.tiles()[k].has_screenshare
                        &&& info@[k].2 == (self.dominant() == Some(self.tiles()[k].endpoint))
                    },
            decreases self.tiles@.len() - i,
        {
            let t = &self.tiles[i];
            let is_dom = match &self.dominant_speaker {
                Some(d) => *d == t.endpoint,
                None => false,
            };
            info.push((&t.endpoint, t.has_screenshare, is_dom));
            i += 1;
        }
        let dom: Option<&str> = match &self.dominant_speaker {
            Some(d) => Some(d.as_str()),
            None => None,
        };
        let r = LayoutEngine::calculate(info.as_slice(), dom);
        assert(info@.len() == self.tiles().len());
        r
    }
}

proof fn lemma_distinct_unique(tiles: Seq<TileView>, ep: Seq<char>, i: int)
    requires
        distinct_endpoints(tiles),
        0 <= i < tiles.len(),
        tiles[i].endpoint == ep,
    ensures
        forall|j: int| 0 <= j < tiles.len() && j != i ==> #[trigger] tiles[j].endpoint != ep,
{
    assert forall|j: int| 0 <= j < tiles.len() && j != i implies #[trigger] tiles[j].endpoint != ep by {
        if j < i {
            assert(tiles[j].endpoint != tiles[i].endpoint);
        } else {
            assert(tiles[i].endpoint != tiles[j].endpoint);
        }
    }
}

proof fn lemma_map_absent(tiles: Seq<TileView>, ep: Seq<char>, f: spec_fn(TileView) -> TileView)
    requires
        !has_tile(tiles, ep),
    ensures
        map_tile(tiles, ep, f) == tiles,
{
    assert(map_tile(tiles, ep, f) =~= tiles);
}

proof fn lemma_filter_keeps_all(tiles: Seq<TileView>, ep: Seq<char>)
    requires
        !has_tile(tiles, ep),
    ensures
        without_tile(tiles, ep) == tiles,
    decreases tiles.len(),
{
    reveal_with_fuel(Seq::filter, 1);
    if tiles.len() > 0 {
        assert(!has_tile(tiles.drop_last(), ep)) by {
            if has_tile(tiles.drop_last(), ep) {
                let i = choose|i: int| 0 <= i < tiles.drop_last().len() && #[trigger] tiles.drop_last()[i].endpoint == ep;
                assert(tiles[i].endpoint == ep);
            }
        }
        lemma_filter_keeps_all(tiles.drop_last(), ep);
        assert(tiles[tiles.len() - 1].endpoint != ep);
        assert(tiles.drop_last().push(tiles.last()) =~= tiles);
    } else {
        assert(without_tile(tiles, ep) =~= tiles);
    }
}

proof fn lemma_filter_drops_one(tiles: Seq<TileView>, ep: Seq<char>, i: int)
    requires
        0 <= i < tiles.len(),
        tiles[i].endpoint == ep,
        forall|j: int| 0 <= j < tiles.len() && j != i ==> #[trigger] tiles[j].endpoint != ep,
    ensures
        without_tile(tiles, ep) == tiles.remove(i),
    decreases tiles.len(),
{
    reveal_with_fuel(Seq::filter, 1);
    let last = tiles.len() - 1;
    if i == last {
        assert(!has_tile(tiles.drop_last(), ep)) by {
            if has_tile(tiles.drop_last(), ep) {
                let k = choose|k: int| 0 <= k < tiles.drop_last().len() && #[trigger] tiles.drop_last()[k].endpoint == ep;
                assert(tiles[k].endpoint == ep);
            }
        }
        lemma_filter_keeps_all(tiles.drop_last(), ep);
        assert(tiles.remove(i) =~= tiles.drop_last());
    } else {
        assert forall|j: int| 0 <= j < tiles.drop_last().len() && j != i implies #[trigger] tiles.drop_last()[j].endpoint != ep by {
            assert(tiles[j].endpoint != ep);
        }
        lemma_filter_drops_one(tiles.drop_last(), ep, i);
        assert(tiles[last].endpoint != ep);
        assert(tiles.remove(i) =~= tiles.drop_last().remove(i).push(tiles.last()));
    }
}

/// Reading an SSRC back after registering it gives what was registered, and
/// registering one SSRC leaves every other as it was.
pub proof fn law_ssrc_lookup_after_register(
    before: Map<u32, (Seq<char>, bool)>,
    ssrc: u32,
    ep: Seq<char>,
    source_name: Seq<char>,
    other: u32,
)
    requires
        other != ssrc,
    ensures
        before.insert(ssrc, (ep, is_share_name(source_name))).contains_key(ssrc),
        before.insert(ssrc, (ep, is_share_name(source_name)))[ssrc] == (ep, is_share_name(source_name)),
        before.insert(ssrc, (ep, is_share_name(source_name))).contains_key(other) == before.contains_key(other),
        before.contains_key(other) ==> before.insert(ssrc, (ep, is_share_name(source_name)))[other]
            == before[other],
{
}

/// A participant who leaves and joins again gets exactly one fresh tile: the
/// old one is gone and the new one shows the black stand-in.
pub proof fn law_rejoin_single_tile(tiles: Seq<TileView>, ep: Seq<char>, joined: TileView)
    requires
        distinct_endpoints(tiles),
        joined.endpoint == ep,
    ensures
        distinct_endpoints(without_tile(tiles, ep).push(joined)),
        !has_tile(without_tile(tiles, ep), ep),
{
    let rest = without_tile(tiles, ep);
    lemma_filter_excludes(tiles, ep);
    lemma_filter_distinct(tiles, ep);
    assert forall|i: int, j: int| 0 <= i < j < rest.push(joined).len() implies #[trigger] rest.push(joined)[i].endpoint != #[trigger] rest.push(joined)[j].endpoint by {
        if j == rest.len() {
            assert(rest.push(joined)[i] == rest[i]);
            assert(rest.contains(rest[i]));
        }
    }
}

proof fn lemma_filter_excludes(tiles: Seq<TileView>, ep: Seq<char>)
    ensures
        forall|t: TileView| #[trigger] without_tile(tiles, ep).contains(t) ==> t.endpoint != ep,
        !has_tile(without_tile(tiles, ep), ep),
{
    let rest = without_tile(tiles, ep);
    assert forall|t: TileView| #[trigger] rest.contains(t) implies t.endpoint != ep by {
        let k = choose|k: int| 0 <= k < rest.len() && rest[k] == t;
        tiles.lemma_filter_pred(|t: TileView| t.endpoint != ep, k);
    }
    if has_tile(rest, ep) {
        let i = choose|i: int| 0 <= i < rest.len() && #[trigger] rest[i].endpoint == ep;
        assert(rest.contains(rest[i]));
    }
}

proof fn lemma_filter_distinct(tiles: Seq<TileView>, ep: Seq<char>)
    requires
        distinct_endpoints(tiles),
    ensures
        distinct_endpoints(without_tile(tiles, ep)),
    decreases tiles.len(),
{
    reveal_with_fuel(Seq::filter, 1);
    if tiles.len() > 0 {
        let init = tiles.drop_last();
        assert(distinct_endpoints(init)) by {
            assert forall|i: int, j: int| 0 <= i < j < init.len() implies #[trigger] init[i].endpoint != #[trigger] init[j].endpoint by {
                assert(tiles[i] == init[i] && tiles[j] == init[j]);
            }
        }
        lemma_filter_distinct(init, ep);
        let rest = without_tile(init, ep);
        let t = tiles.last();
        if t.endpoint != ep {
            assert(without_tile(tiles, ep) == rest.push(t));
            assert forall|i: int| 0 <= i < rest.len() implies #[trigger] rest[i].endpoint != t.endpoint by {
                assert(rest.contains(rest[i]));
                init.lemma_filter_contains_rev(|t: TileView| t.endpoint != ep, rest[i]);
                let k = choose|k: int| 0 <= k < init.len() && init[k] == rest[i];
                assert(tiles[k] == init[k]);
                assert(tiles[k].endpoint != tiles[tiles.len() - 1].endpoint);
            }
            assert forall|i: int, j: int| 0 <= i < j < rest.push(t).len() implies #[trigger] rest.push(t)[i].endpoint != #[trigger] rest.push(t)[j].endpoint by {
                if j == rest.len() {
                    assert(rest.push(t)[i] == rest[i]);
                } else {
                    assert(rest.push(t)[i] == rest[i] && rest.push(t)[j] == rest[j]);
                }
            }
        } else {
            assert(without_tile(tiles, ep) == rest);
        }
    } else {
        assert(without_tile(tiles, ep) =~= tiles);
    }
}

} // verus!
