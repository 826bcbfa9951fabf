use vstd::prelude::*;

verus! {

use vstd::arithmetic::div_mod::lemma_div_multiples_vanish;

// Speaker position bits of the WAVEFORMATEXTENSIBLE channel mask.
pub const SPEAKER_FRONT_LEFT: u32 = 0x1;

pub const SPEAKER_FRONT_RIGHT: u32 = 0x2;

pub const SPEAKER_FRONT_CENTER: u32 = 0x4;

pub const SPEAKER_LOW_FREQUENCY: u32 = 0x8;

pub const SPEAKER_BACK_LEFT: u32 = 0x10;

pub const SPEAKER_BACK_RIGHT: u32 = 0x20;

pub const SPEAKER_FRONT_LEFT_OF_CENTER: u32 = 0x40;

pub const SPEAKER_FRONT_RIGHT_OF_CENTER: u32 = 0x80;

pub const SPEAKER_BACK_CENTER: u32 = 0x100;

pub const SPEAKER_SIDE_LEFT: u32 = 0x200;

pub const SPEAKER_SIDE_RIGHT: u32 = 0x400;

// The standard layouts probing starts from, by channel count.
pub const SPEAKER_STEREO: u32 = SPEAKER_FRONT_LEFT | SPEAKER_FRONT_RIGHT;

pub const SPEAKER_QUAD: u32 = SPEAKER_FRONT_LEFT | SPEAKER_FRONT_RIGHT | SPEAKER_BACK_LEFT
    | SPEAKER_BACK_RIGHT;

pub const SPEAKER_SURROUND: u32 = SPEAKER_FRONT_LEFT | SPEAKER_FRONT_RIGHT | SPEAKER_FRONT_CENTER
    | SPEAKER_BACK_CENTER;

pub const SPEAKER_5POINT1: u32 = SPEAKER_FRONT_LEFT | SPEAKER_FRONT_RIGHT | SPEAKER_FRONT_CENTER
    | SPEAKER_LOW_FREQUENCY | SPEAKER_BACK_LEFT | SPEAKER_BACK_RIGHT;

pub const SPEAKER_7POINT1: u32 = SPEAKER_FRONT_LEFT | SPEAKER_FRONT_RIGHT | SPEAKER_FRONT_CENTER
    | SPEAKER_LOW_FREQUENCY | SPEAKER_BACK_LEFT | SPEAKER_BACK_RIGHT
    | SPEAKER_FRONT_LEFT_OF_CENTER | SPEAKER_FRONT_RIGHT_OF_CENTER;

pub const SPEAKER_5POINT1_SURROUND: u32 = SPEAKER_FRONT_LEFT | SPEAKER_FRONT_RIGHT
    | SPEAKER_FRONT_CENTER | SPEAKER_LOW_FREQUENCY | SPEAKER_SIDE_LEFT | SPEAKER_SIDE_RIGHT;

pub const SPEAKER_7POINT1_SURROUND: u32 = SPEAKER_FRONT_LEFT | SPEAKER_FRONT_RIGHT
    | SPEAKER_FRONT_CENTER | SPEAKER_LOW_FREQUENCY | SPEAKER_BACK_LEFT | SPEAKER_BACK_RIGHT
    | SPEAKER_SIDE_LEFT | SPEAKER_SIDE_RIGHT;

/// The catalog key: what the host sees of a wave format. The sentinel
/// value `NOT_SPECIFIED` in a field means "any value of it".
#[derive(Clone, Copy, Debug, PartialEq, Eq, Structural)]
pub struct Format {
    pub validbits: i32,
    pub frame_bytes: i32,
    pub channels: i32,
    pub rate: i32,
}

pub const NOT_SPECIFIED: i32 = -1;

/// How one probe candidate lays out its channels.
#[derive(Clone, Copy, Debug, PartialEq, Eq, Structural)]
pub enum CandidateLayout {
    /// WAVEFORMATEXTENSIBLE with this channel mask.
    ExtensibleMask(u32),
    /// WAVEFORMATEXTENSIBLE with the default mask the vendor wrapper
    /// derives from the channel count.
    ExtensibleDefaultMask,
    /// Legacy WAVEFORMATEX, without a channel mask.
    Legacy,
}

/// One wave format to offer the device while probing.
#[derive(Clone, Copy, Debug, PartialEq, Eq, Structural)]
pub struct WaveFormatCandidate {
    pub storebits: usize,
    pub validbits: usize,
    pub rate: usize,
    pub channels: usize,
    pub layout: CandidateLayout,
}

/// The channel masks to try first for each channel count, most likely
/// layouts first; empty outside the tabulated range.
pub open spec fn spec_mask_table(channels: int) -> Seq<u32> {
    if channels == 1 {
        seq![SPEAKER_FRONT_CENTER]
    } else if channels == 2 {
        seq![SPEAKER_STEREO]
    } else if channels == 3 {
        seq![SPEAKER_STEREO | SPEAKER_LOW_FREQUENCY]
    } else if channels == 4 {
        seq![SPEAKER_QUAD, SPEAKER_SURROUND]
    } else if channels == 5 {
        seq![SPEAKER_QUAD | SPEAKER_LOW_FREQUENCY, SPEAKER_SURROUND | SPEAKER_LOW_FREQUENCY]
    } else if channels == 6 {
        seq![SPEAKER_5POINT1, SPEAKER_5POINT1_SURROUND]
    } else if channels == 7 {
        seq![SPEAKER_5POINT1 | SPEAKER_BACK_CENTER, SPEAKER_5POINT1_SURROUND | SPEAKER_BACK_CENTER]
    } else if channels == 8 {
        seq![SPEAKER_7POINT1, SPEAKER_7POINT1_SURROUND]
    } else {
        Seq::empty()
    }
}

/// The channel masks to try for a channel count, in probing order.
pub fn channel_masks(channels: usize) -> (r: Vec<u32>)
    ensures
        r@ == spec_mask_table(channels as int),
{
    let mut r: Vec<u32> = Vec::new();
    match channels {
        1 => {
            r.push(SPEAKER_FRONT_CENTER);
        },
        2 => {
            r.push(SPEAKER_STEREO);
        },
        3 => {
            r.push(SPEAKER_STEREO | SPEAKER_LOW_FREQUENCY);
        },
        4 => {
            r.push(SPEAKER_QUAD);
            r.push(SPEAKER_SURROUND);
        },
        5 => {
            r.push(SPEAKER_QUAD | SPEAKER_LOW_FREQUENCY);
            r.push(SPEAKER_SURROUND | SPEAKER_LOW_FREQUENCY);
        },
        6 => {
            r.push(SPEAKER_5POINT1);
            r.push(SPEAKER_5POINT1_SURROUND);
        },
        7 => {
            r.push(SPEAKER_5POINT1 | SPEAKER_BACK_CENTER);
            r.push(SPEAKER_5POINT1_SURROUND | SPEAKER_BACK_CENTER);
        },
        8 => {
            r.push(SPEAKER_7POINT1);
            r.push(SPEAKER_7POINT1_SURROUND);
        },
        _ => {},
    }
    proof {
        assert(r@ =~= spec_mask_table(channels as int));
    }
    r
}

pub open spec fn spec_candidate(
    storebits: usize,
    validbits: usize,
    rate: usize,
    channels: usize,
    layout: CandidateLayout,
) -> WaveFormatCandidate {
    WaveFormatCandidate { storebits, validbits, rate, channels, layout }
}

/// The ordered candidate list for one shape: the tabulated masks first,
/// then (above stereo) the wrapper's default mask, then the zero mask
/// some capture devices need, and for small legacy shapes a plain
/// WAVEFORMATEX last.
pub open spec fn spec_candidates(
    storebits: usize,
    validbits: usize,
    rate: usize,
    channels: usize,
) -> Seq<WaveFormatCandidate> {
    spec_mask_table(channels as int).map_values(
        |m: u32| spec_candidate(storebits, validbits, rate, channels, CandidateLayout::ExtensibleMask(m)),
    ) + (if channels > 2 {
        seq![spec_candidate(storebits, validbits, rate, channels, CandidateLayout::ExtensibleDefaultMask)]
    } else {
        Seq::empty()
    }) + seq![spec_candidate(storebits, validbits, rate, channels, CandidateLayout::ExtensibleMask(0))]
        + (if channels <= 2 && storebits <= 16 {
        seq![spec_candidate(storebits, validbits, rate, channels, CandidateLayout::Legacy)]
    } else {
        Seq::empty()
    })
}

/// Builds the ordered candidate list to probe for one format shape.
pub fn get_possible_formats(storebits: usize, validbits: usize, rate: usize, channels: usize) -> (r:
    Vec<WaveFormatCandidate>)
    ensures
        r@ == spec_candidates(storebits, validbits, rate, channels),
{
    let mut r: Vec<WaveFormatCandidate> = Vec::new();
    let masks = channel_masks(channels);
    let mut i: usize = 0;
    while i < masks.len()
        invariant
            i <= masks.len(),
            masks@ == spec_mask_table(channels as int),
            r@ == masks@.take(i as int).map_values(
                |m: u32| spec_candidate(
                    storebits,
                    validbits,
                    rate,
                    channels,
                    CandidateLayout::ExtensibleMask(m),
                ),
            ),
        decreases masks.len() - i,
    {
        let m = masks[i];
        r.push(
            WaveFormatCandidate {
                storebits,
                validbits,
                rate,
                channels,
                layout: CandidateLayout::ExtensibleMask(m),
            },
        );
        proof {
            assert(masks@.take(i + 1).drop_last() == masks@.take(i as int));
            assert(r@ =~= masks@.take(i + 1).map_values(
                |m: u32| spec_candidate(
                    storebits,
                    validbits,
                    rate,
                    channels,
                    CandidateLayout::ExtensibleMask(m),
                ),
            ));
        }
        i = i + 1;
    }
    proof {
        assert(masks@.take(masks@.len() as int) == masks@);
    }
    if channels > 2 {
        r.push(
            WaveFormatCandidate {
                storebits,
                validbits,
                rate,
                channels,
                layout: CandidateLayout::ExtensibleDefaultMask,
            },
        );
    }
    r.push(
        WaveFormatCandidate {
            storebits,
            validbits,
            rate,
            channels,
            layout: CandidateLayout::ExtensibleMask(0),
        },
    );
    if channels <= 2 && storebits <= 16 {
        r.push(
            WaveFormatCandidate { storebits, validbits, rate, channels, layout: CandidateLayout::Legacy },
        );
    }
    proof {
        assert(r@ =~= spec_candidates(storebits, validbits, rate, channels));
    }
    r
}

/// The catalog key a shape maps to.
pub open spec fn spec_format_for(rate: usize, channels: usize, validbits: usize, storebits: usize) -> Format {
    Format {
        validbits: validbits as i32,
        frame_bytes: ((channels * storebits) / 8) as i32,
        channels: channels as i32,
        rate: rate as i32,
    }
}

impl Format {
    /// What the host sees of an accepted candidate.
    pub fn from_candidate(c: &WaveFormatCandidate) -> (f: Format)
        requires
            c.rate <= i32::MAX,
            c.validbits <= i32::MAX,
            c.channels * c.storebits <= i32::MAX,
        ensures
            f == spec_format_for(c.rate, c.channels, c.validbits, c.storebits),
    {
        Format {
            validbits: c.validbits as i32,
            frame_bytes: ((c.channels * c.storebits) / 8) as i32,
            channels: c.channels as i32,
            rate: c.rate as i32,
        }
    }
}

/// Which (rate, channels) pairs the catalog build takes.
#[derive(Clone, Copy, Debug, PartialEq, Eq, Structural)]
pub enum ComboLimit {
    /// Every pair is probed.
    All,
    /// A pair is probed when its rate or its channel count stays within
    /// the given maxima.
    Limited { max_rate: usize, max_channels: usize },
}

impl ComboLimit {
    pub open spec fn spec_accepts(self, rate: usize, channels: usize) -> bool {
        match self {
            ComboLimit::All => true,
            ComboLimit::Limited { max_rate, max_channels } => rate <= max_rate || channels
                <= max_channels,
        }
    }

    pub fn accepts(&self, rate: usize, channels: usize) -> (b: bool)
        ensures
            b == self.spec_accepts(rate, channels),
    {
        match self {
            ComboLimit::All => true,
            ComboLimit::Limited { max_rate, max_channels } => rate <= *max_rate || channels
                <= *max_channels,
        }
    }
}

/// The (validbits, storebits) shapes probed for every accepted pair.
pub open spec fn spec_bits_table() -> Seq<(usize, usize)> {
    seq![(16usize, 16usize), (24usize, 24usize), (24usize, 32usize), (32usize, 32usize)]
}

fn bits_variant(k: usize) -> (r: (usize, usize))
    requires
        k < 4,
    ensures
        r == spec_bits_table()[k as int],
        r.0 == 16 || r.0 == 24 || r.0 == 32,
        r.1 == 16 || r.1 == 24 || r.1 == 32,
{
    match k {
        0 => (16, 16),
        1 => (24, 24),
        2 => (24, 32),
        _ => (32, 32),
    }
}

/// The candidate list belonging to a catalog key, recovered from the key
/// alone: the store bits come back out of `frame_bytes` and `channels`.
pub open spec fn spec_value_of(f: Format) -> Seq<WaveFormatCandidate> {
    spec_candidates(
        ((8 * (f.frame_bytes as int)) / (f.channels as int)) as usize,
        f.validbits as usize,
        f.rate as usize,
        f.channels as usize,
    )
}

/// The process-wide mapping from host-visible formats to the candidate
/// lists the prober walks, keys unique.
pub struct FormatCatalog {
    entries: Vec<(Format, Vec<WaveFormatCandidate>)>,
}

impl FormatCatalog {
    pub closed spec fn entries_seq(self) -> Seq<(Format, Seq<WaveFormatCandidate>)> {
        self.entries@.map_values(|e: (Format, Vec<WaveFormatCandidate>)| (e.0, e.1@))
    }

    pub open spec fn wf(self) -> bool {
        forall|i: int, j: int|
            0 <= i < j < self.entries_seq().len() ==> (#[trigger] self.entries_seq()[i]).0 != (
            #[trigger] self.entries_seq()[j]).0
    }

    pub open spec fn spec_contains(self, f: Format) -> bool {
        exists|i: int| 0 <= i < self.entries_seq().len() && (#[trigger] self.entries_seq()[i]).0 == f
    }

    pub open spec fn spec_index_of(self, f: Format) -> int {
        choose|i: int| 0 <= i < self.entries_seq().len() && (#[trigger] self.entries_seq()[i]).0 == f
    }

    pub open spec fn spec_candidates_of(self, f: Format) -> Seq<WaveFormatCandidate> {
        self.entries_seq()[self.spec_index_of(f)].1
    }

    pub open spec fn spec_len(self) -> nat {
        self.entries_seq().len()
    }

    pub fn new() -> (r: Self)
        ensures
            r.wf(),
            r.spec_len() == 0,
            forall|f: Format| !r.spec_contains(f),
    {
        FormatCatalog { entries: Vec::new() }
    }

    pub fn entry_count(&self) -> (n: usize)
        ensures
            n == self.spec_len(),
    {
        self.entries.len()
    }

    /// The key and candidate list at one position, for walking the catalog.
    pub fn entry_at(&self, i: usize) -> (r: (&Format, &Vec<WaveFormatCandidate>))
        requires
            i < self.spec_len(),
        ensures
            *r.0 == self.entries_seq()[i as int].0,
            r.1@ == self.entries_seq()[i as int].1,
            self.spec_contains(*r.0),
    {
        let e = &self.entries[i];
        (&e.0, &e.1)
    }

    /// Puts one format and its candidates into the catalog, replacing any
    /// entry under the same key.
    pub fn insert(&mut self, f: Format, cands: Vec<WaveFormatCandidate>)
        requires
            old(self).wf(),
        ensures
            final(self).wf(),
            forall|g: Format| final(self).spec_contains(g) <==> old(self).spec_contains(g) || g == f,
            final(self).spec_candidates_of(f) == cands@,
            forall|g: Format|
                g != f && #[trigger] old(self).spec_contains(g) ==> final(self).spec_candidates_of(
                    g,
                ) == old(self).spec_candidates_of(g) && final(self).spec_contains(g),
    {
        let n = self.entries.len();
        let mut i: usize = 0;
        while i < n
            invariant
                old(self).wf(),
                n == self.entries@.len(),
                i <= n,
                *self == *old(self),
                forall|p: int| 0 <= p < i ==> (#[trigger] self.entries_seq()[p]).0 != f,
            decreases n - i,
        {
            if self.entries[i].0 == f {
                self.entries[i] = (f, cands);
                proof {
                    let s_old = old(self).entries_seq();
                    let s_new = self.entries_seq();
                    assert(s_new =~= s_old.update(i as int, (f, cands@)));
                    assert(s_old[i as int].0 == f);
                    assert forall|p: int| 0 <= p < s_new.len() implies (#[trigger] s_new[p]).0
                        == s_old[p].0 by {}
                    assert forall|g: Format| #[trigger] self.spec_contains(g) implies old(self).spec_contains(g) || g == f by {
                        let p = choose|p: int| 0 <= p < s_new.len() && s_new[p].0 == g;
                        if p != i {
                            assert(s_old[p].0 == g);
                        }
                    }
                    assert forall|g: Format|
                        old(self).spec_contains(g) || g == f implies #[trigger] self.spec_contains(
                        g,
                    ) by {
                        if g == f {
                            assert(s_new[i as int].0 == f);
                        } else {
                            let p = choose|p: int| 0 <= p < s_old.len() && s_old[p].0 == g;
                            assert(s_new[p].0 == g);
                        }
                    }
                    let q = self.spec_index_of(f);
                    assert(s_new[i as int].0 == f);
                    assert(s_new[q].0 == f);
                    assert(q == i);
                    assert forall|g: Format|
                        g != f && #[trigger] old(self).spec_contains(g) implies
                        self.spec_candidates_of(g) == old(self).spec_candidates_of(g)
                        && self.spec_contains(g) by {
                        let p_old = old(self).spec_index_of(g);
                        assert(s_old[p_old].0 == g);
                        assert(p_old != i);
                        assert(s_new[p_old].0 == g);
                        let p_new = self.spec_index_of(g);
                        assert(s_new[p_new].0 == g);
                        if p_new != p_old {
                            assert(s_old[p_new].0 == g);
                        }
                    }
                }
                return ;
            }
            i = i + 1;
        }
        self.entries.push((f, cands));
        proof {
            let s_old = old(self).entries_seq();
            let s_new = self.entries_seq();
            assert(s_new =~= s_old.push((f, cands@)));
            assert(s_new[s_old.len() as int].0 == f);
            assert forall|g: Format| #[trigger] self.spec_contains(g) implies old(self).spec_contains(g) || g == f by {
                let p = choose|p: int| 0 <= p < s_new.len() && s_new[p].0 == g;
                if p < s_old.len() {
                    assert(s_old[p].0 == g);
                }
            }
            assert forall|g: Format|
                old(self).spec_contains(g) || g == f implies #[trigger] self.spec_contains(g) by {
                if g != f {
                    let p = choose|p: int| 0 <= p < s_old.len() && s_old[p].0 == g;
                    assert(s_new[p].0 == g);
                }
            }
            assert forall|p: int, q: int| 0 <= p < q < s_new.len() implies (
            #[trigger] s_new[p]).0 != (#[trigger] s_new[q]).0 by {
                if q == s_old.len() {
                    assert(s_new[p].0 != f);
                }
            }
            let qf = self.spec_index_of(f);
            assert(s_new[qf].0 == f);
            assert(qf == s_old.len());
            assert forall|g: Format|
                g != f && #[trigger] old(self).spec_contains(g) implies self.spec_candidates_of(g)
                == old(self).spec_candidates_of(g) && self.spec_contains(g) by {
                let p_old = old(self).spec_index_of(g);
                assert(s_old[p_old].0 == g);
                assert(s_new[p_old].0 == g);
                let p_new = self.spec_index_of(g);
                assert(s_new[p_new].0 == g);
                if p_new != p_old {
                    if p_new < s_old.len() {
                        assert(s_old[p_new].0 == g);
                    }
                }
            }
        }
    }

    /// The candidate list filed under a format, if the catalog holds it.
    pub fn candidates_for(&self, f: &Format) -> (r: Option<&Vec<WaveFormatCandidate>>)
        requires
            self.wf(),
        ensures
            r is Some <==> self.spec_contains(*f),
            r matches Some(v) ==> v@ == self.spec_candidates_of(*f),
    {
        let n = self.entries.len();
        let mut i: usize = 0;
        while i < n
            invariant
                self.wf(),
                n == self.entries@.len(),
                i <= n,
                forall|p: int| 0 <= p < i ==> (#[trigger] self.entries_seq()[p]).0 != *f,
            decreases n - i,
        {
            if self.entries[i].0 == *f {
                proof {
                    let q = self.spec_index_of(*f);
                    assert(self.entries_seq()[i as int].0 == *f);
                    assert(self.entries_seq()[q].0 == *f);
                    assert(q == i);
                }
                return Some(&self.entries[i].1);
            }
            i = i + 1;
        }
        None
    }
}

/// The formats whose probe succeeded, in catalog order.
pub open spec fn spec_successes(probed: Seq<Option<Format>>) -> Seq<Format>
    decreases probed.len(),
{
    if probed.len() == 0 {
        Seq::empty()
    } else {
        spec_successes(probed.drop_last()) + (match probed.last() {
            Some(f) => seq![f],
            None => Seq::empty(),
        })
    }
}

/// The distinct `validbits` among a format list, in order of first
/// appearance.
pub open spec fn spec_distinct_validbits(fs: Seq<Format>) -> Seq<i32>
    decreases fs.len(),
{
    if fs.len() == 0 {
        Seq::empty()
    } else {
        let pre = spec_distinct_validbits(fs.drop_last());
        if pre.contains(fs.last().validbits) {
            pre
        } else {
            pre + seq![fs.last().validbits]
        }
    }
}

/// The "this depth for any shape" marker appended per supported depth.
pub open spec fn spec_sentinel(validbits: i32) -> Format {
    Format { validbits, frame_bytes: NOT_SPECIFIED, channels: NOT_SPECIFIED, rate: NOT_SPECIFIED }
}

/// What a device's format list holds, given the per-entry probe outcomes:
/// the accepted formats, then one sentinel per distinct bit depth.
pub open spec fn spec_collected(probed: Seq<Option<Format>>) -> Seq<Format> {
    spec_successes(probed) + spec_distinct_validbits(spec_successes(probed)).map_values(
        |vb: i32| spec_sentinel(vb),
    )
}

fn vec_contains_i32(v: &Vec<i32>, x: i32) -> (b: bool)
    ensures
        b == v@.contains(x),
{
    let mut i: usize = 0;
    while i < v.len()
        invariant
            i <= v@.len(),
            forall|p: int| 0 <= p < i ==> v@[p] != x,
        decreases v@.len() - i,
    {
        if v[i] == x {
            proof {
                assert(v@[i as int] == x);
            }
            return true;
        }
        i = i + 1;
    }
    false
}

/// Turns the probe outcomes of a catalog walk into the device's format
/// list: every accepted format in order, then for each distinct bit depth
/// one sentinel format meaning "this depth, any shape".
pub fn collect_formats(probed: &Vec<Option<Format>>) -> (r: Vec<Format>)
    ensures
        r@ == spec_collected(probed@),
{
    let mut fs: Vec<Format> = Vec::new();
    let mut i: usize = 0;
    while i < probed.len()
        invariant
            i <= probed@.len(),
            fs@ == spec_successes(probed@.take(i as int)),
        decreases probed@.len() - i,
    {
        proof {
            assert(probed@.take(i + 1).drop_last() == probed@.take(i as int));
            assert(probed@.take(i + 1).last() == probed@[i as int]);
        }
        match probed[i] {
            Some(f) => {
                fs.push(f);
            },
            None => {},
        }
        i = i + 1;
    }
    proof {
        assert(probed@.take(probed@.len() as int) == probed@);
    }
    let ghost done: Seq<Format> = fs@;
    let mut vbs: Vec<i32> = Vec::new();
    let mut j: usize = 0;
    while j < fs.len()
        invariant
            j <= fs@.len(),
            fs@ == done,
            vbs@ == spec_distinct_validbits(done.take(j as int)),
        decreases fs@.len() - j,
    {
        proof {
            assert(done.take(j + 1).drop_last() == done.take(j as int));
            assert(done.take(j + 1).last() == done[j as int]);
        }
        let vb = fs[j].validbits;
        if !vec_contains_i32(&vbs, vb) {
            vbs.push(vb);
        }
        j = j + 1;
    }
    proof {
        assert(done.take(done.len() as int) == done);
    }
    let mut m: usize = 0;
    while m < vbs.len()
        invariant
            m <= vbs@.len(),
            vbs@ == spec_distinct_validbits(done),
            fs@ == done + vbs@.take(m as int).map_values(|vb: i32| spec_sentinel(vb)),
        decreases vbs@.len() - m,
    {
        let vb = vbs[m];
        fs.push(Format { validbits: vb, frame_bytes: NOT_SPECIFIED, channels: NOT_SPECIFIED, rate: NOT_SPECIFIED });
        proof {
            assert(fs@ =~= done + vbs@.take(m + 1).map_values(|vb: i32| spec_sentinel(vb)));
        }
        m = m + 1;
    }
    proof {
        assert(vbs@.take(vbs@.len() as int) == vbs@);
        assert(fs@ =~= spec_collected(probed@));
    }
    fs
}

/// One grid point of the catalog build: the format that the `i`th rate,
/// the `j`th channel count and the `k`th bit shape produce, if the pair
/// is accepted.
pub open spec fn spec_grid_point(
    rates: Seq<usize>,
    chans: Seq<usize>,
    limit: ComboLimit,
    f: Format,
    i: int,
    j: int,
    k: int,
) -> bool {
    &&& 0 <= i < rates.len()
    &&& 0 <= j < chans.len()
    &&& 0 <= k < 4
    &&& limit.spec_accepts(rates[i], chans[j])
    &&& f == spec_format_for(
        rates[i],
        chans[j],
        spec_bits_table()[k].0,
        spec_bits_table()[k].1,
    )
}

/// Lexicographic order on grid points, the order the build walks them in.
pub open spec fn spec_grid_before(i: int, j: int, k: int, ri: int, ci: int, ki: int) -> bool {
    i < ri || (i == ri && j < ci) || (i == ri && j == ci && k < ki)
}

/// Whether a format arises from a grid point the build has already walked.
pub open spec fn spec_grid_upto(
    rates: Seq<usize>,
    chans: Seq<usize>,
    limit: ComboLimit,
    f: Format,
    ri: int,
    ci: int,
    ki: int,
) -> bool {
    exists|i: int, j: int, k: int|
        #[trigger] spec_grid_point(rates, chans, limit, f, i, j, k) && spec_grid_before(
            i,
            j,
            k,
            ri,
            ci,
            ki,
        )
}

/// Whether a format arises from the full probing grid.
pub open spec fn spec_grid(rates: Seq<usize>, chans: Seq<usize>, limit: ComboLimit, f: Format) -> bool {
    spec_grid_upto(rates, chans, limit, f, rates.len() as int, 0, 0)
}

proof fn lemma_grid_insert_step(
    rates: Seq<usize>,
    chans: Seq<usize>,
    limit: ComboLimit,
    f: Format,
    ri: int,
    ci: int,
    ki: int,
)
    requires
        0 <= ri < rates.len(),
        0 <= ci < chans.len(),
        0 <= ki < 4,
        limit.spec_accepts(rates[ri], chans[ci]),
    ensures
        spec_grid_upto(rates, chans, limit, f, ri, ci, ki + 1) <==> (spec_grid_upto(
            rates,
            chans,
            limit,
            f,
            ri,
            ci,
            ki,
        ) || f == spec_format_for(
            rates[ri],
            chans[ci],
            spec_bits_table()[ki].0,
            spec_bits_table()[ki].1,
        )),
{
    let fmt = spec_format_for(
        rates[ri],
        chans[ci],
        spec_bits_table()[ki].0,
        spec_bits_table()[ki].1,
    );
    if spec_grid_upto(rates, chans, limit, f, ri, ci, ki + 1) {
        let (i, j, k) = choose|i: int, j: int, k: int|
            #[trigger] spec_grid_point(rates, chans, limit, f, i, j, k) && spec_grid_before(
                i,
                j,
                k,
                ri,
                ci,
                ki + 1,
            );
        if i == ri && j == ci && k == ki {
            assert(f == fmt);
        } else {
            assert(spec_grid_point(rates, chans, limit, f, i, j, k) && spec_grid_before(
                i,
                j,
                k,
                ri,
                ci,
                ki,
            ));
        }
    }
    if spec_grid_upto(rates, chans, limit, f, ri, ci, ki) {
        let (i, j, k) = choose|i: int, j: int, k: int|
            #[trigger] spec_grid_point(rates, chans, limit, f, i, j, k) && spec_grid_before(
                i,
                j,
                k,
                ri,
                ci,
                ki,
            );
        assert(spec_grid_point(rates, chans, limit, f, i, j, k) && spec_grid_before(
            i,
            j,
            k,
            ri,
            ci,
            ki + 1,
        ));
    }
    if f == fmt {
        assert(spec_grid_point(rates, chans, limit, f, ri, ci, ki) && spec_grid_before(
            ri,
            ci,
            ki,
            ri,
            ci,
            ki + 1,
        ));
    }
}

proof fn lemma_grid_inner_done(
    rates: Seq<usize>,
    chans: Seq<usize>,
    limit: ComboLimit,
    f: Format,
    ri: int,
    ci: int,
)
    requires
        0 <= ri < rates.len(),
        0 <= ci < chans.len(),
    ensures
        spec_grid_upto(rates, chans, limit, f, ri, ci, 4) <==> spec_grid_upto(
            rates,
            chans,
            limit,
            f,
            ri,
            ci + 1,
            0,
        ),
{
    if spec_grid_upto(rates, chans, limit, f, ri, ci, 4) {
        let (i, j, k) = choose|i: int, j: int, k: int|
            #[trigger] spec_grid_point(rates, chans, limit, f, i, j, k) && spec_grid_before(
                i,
                j,
                k,
                ri,
                ci,
                4,
            );
        assert(spec_grid_point(rates, chans, limit, f, i, j, k) && spec_grid_before(
            i,
            j,
            k,
            ri,
            ci + 1,
            0,
        ));
    }
    if spec_grid_upto(rates, chans, limit, f, ri, ci + 1, 0) {
        let (i, j, k) = choose|i: int, j: int, k: int|
            #[trigger] spec_grid_point(rates, chans, limit, f, i, j, k) && spec_grid_before(
                i,
                j,
                k,
                ri,
                ci + 1,
                0,
            );
        assert(spec_grid_point(rates, chans, limit, f, i, j, k) && spec_grid_before(
            i,
            j,
            k,
            ri,
            ci,
            4,
        ));
    }
}

proof fn lemma_grid_skip(
    rates: Seq<usize>,
    chans: Seq<usize>,
    limit: ComboLimit,
    f: Format,
    ri: int,
    ci: int,
)
    requires
        0 <= ri < rates.len(),
        0 <= ci < chans.len(),
        !limit.spec_accepts(rates[ri], chans[ci]),
    ensures
        spec_grid_upto(rates, chans, limit, f, ri, ci, 0) <==> spec_grid_upto(
            rates,
            chans,
            limit,
            f,
            ri,
            ci + 1,
            0,
        ),
{
    if spec_grid_upto(rates, chans, limit, f, ri, ci, 0) {
        let (i, j, k) = choose|i: int, j: int, k: int|
            #[trigger] spec_grid_point(rates, chans, limit, f, i, j, k) && spec_grid_before(
                i,
                j,
                k,
                ri,
                ci,
                0,
            );
        assert(spec_grid_point(rates, chans, limit, f, i, j, k) && spec_grid_before(
            i,
            j,
            k,
            ri,
            ci + 1,
            0,
        ));
    }
    if spec_grid_upto(rates, chans, limit, f, ri, ci + 1, 0) {
        let (i, j, k) = choose|i: int, j: int, k: int|
            #[trigger] spec_grid_point(rates, chans, limit, f, i, j, k) && spec_grid_before(
                i,
                j,
                k,
                ri,
                ci + 1,
                0,
            );
        // The pair walked at (ri, ci) is refused, so the witness cannot
        // sit there; it lies strictly earlier.
        assert(!(i == ri && j == ci));
        assert(spec_grid_point(rates, chans, limit, f, i, j, k) && spec_grid_before(
            i,
            j,
            k,
            ri,
            ci,
            0,
        ));
    }
}

proof fn lemma_grid_outer_done(
    rates: Seq<usize>,
    chans: Seq<usize>,
    limit: ComboLimit,
    f: Format,
    ri: int,
)
    requires
        0 <= ri < rates.len(),
    ensures
        spec_grid_upto(rates, chans, limit, f, ri, chans.len() as int, 0) <==> spec_grid_upto(
            rates,
            chans,
            limit,
            f,
            ri + 1,
            0,
            0,
        ),
{
    if spec_grid_upto(rates, chans, limit, f, ri, chans.len() as int, 0) {
        let (i, j, k) = choose|i: int, j: int, k: int|
            #[trigger] spec_grid_point(rates, chans, limit, f, i, j, k) && spec_grid_before(
                i,
                j,
                k,
                ri,
                chans.len() as int,
                0,
            );
        assert(spec_grid_point(rates, chans, limit, f, i, j, k) && spec_grid_before(
            i,
            j,
            k,
            ri + 1,
            0,
            0,
        ));
    }
    if spec_grid_upto(rates, chans, limit, f, ri + 1, 0, 0) {
        let (i, j, k) = choose|i: int, j: int, k: int|
            #[trigger] spec_grid_point(rates, chans, limit, f, i, j, k) && spec_grid_before(
                i,
                j,
                k,
                ri + 1,
                0,
                0,
            );
        assert(spec_grid_point(rates, chans, limit, f, i, j, k) && spec_grid_before(
            i,
            j,
            k,
            ri,
            chans.len() as int,
            0,
        ));
    }
}

/// The candidate list of a built catalog entry can be read back off the
/// key: `frame_bytes` and `channels` give the store bits back.
proof fn lemma_value_recover(rate: usize, channels: usize, validbits: usize, storebits: usize)
    requires
        1 <= channels,
        channels * 32 <= i32::MAX,
        1 <= rate <= i32::MAX,
        validbits <= i32::MAX,
        storebits == 16 || storebits == 24 || storebits == 32,
    ensures
        spec_value_of(spec_format_for(rate, channels, validbits, storebits)) == spec_candidates(
            storebits,
            validbits,
            rate,
            channels,
        ),
{
    let c = channels as int;
    let f = spec_format_for(rate, channels, validbits, storebits);
    if storebits == 16 {
        assert(channels * 16 == 8 * (2 * c));
        lemma_div_multiples_vanish(2 * c, 8);
        assert(f.frame_bytes == 2 * c);
        assert(8 * (f.frame_bytes as int) == c * 16);
        lemma_div_multiples_vanish(16, c);
    } else if storebits == 24 {
        assert(channels * 24 == 8 * (3 * c));
        lemma_div_multiples_vanish(3 * c, 8);
        assert(f.frame_bytes == 3 * c);
        assert(8 * (f.frame_bytes as int) == c * 24);
        lemma_div_multiples_vanish(24, c);
    } else {
        assert(channels * 32 == 8 * (4 * c));
        lemma_div_multiples_vanish(4 * c, 8);
        assert(f.frame_bytes == 4 * c);
        assert(8 * (f.frame_bytes as int) == c * 32);
        lemma_div_multiples_vanish(32, c);
    }
}

/// Builds the whole catalog: for every accepted (rate, channels) pair
/// and every tabulated bit shape, the format key and its ordered
/// candidate list.
pub fn init_format_variants(
    rates: &Vec<usize>,
    channels_variants: &Vec<usize>,
    limit: &ComboLimit,
) -> (r: FormatCatalog)
    requires
        forall|i: int| 0 <= i < rates@.len() ==> 1 <= #[trigger] rates@[i] <= i32::MAX,
        forall|j: int|
            0 <= j < channels_variants@.len() ==> 1 <= #[trigger] channels_variants@[j]
                && channels_variants@[j] * 32 <= i32::MAX,
    ensures
        r.wf(),
        forall|f: Format| #[trigger] r.spec_contains(f) <==> spec_grid(
            rates@,
            channels_variants@,
            *limit,
            f,
        ),
        forall|f: Format| #[trigger] r.spec_contains(f) ==> r.spec_candidates_of(f)
            == spec_value_of(f),
{
    let ghost rs = rates@;
    let ghost cs = channels_variants@;
    let mut cat = FormatCatalog::new();
    let mut ri: usize = 0;
    while ri < rates.len()
        invariant
            rs == rates@,
            cs == channels_variants@,
            forall|i: int| 0 <= i < rs.len() ==> 1 <= #[trigger] rs[i] <= i32::MAX,
            forall|j: int|
                0 <= j < cs.len() ==> 1 <= #[trigger] cs[j] && cs[j] * 32 <= i32::MAX,
            ri <= rs.len(),
            cat.wf(),
            forall|f: Format| #[trigger] cat.spec_contains(f) <==> spec_grid_upto(
                rs,
                cs,
                *limit,
                f,
                ri as int,
                0,
                0,
            ),
            forall|f: Format| #[trigger] cat.spec_contains(f) ==> cat.spec_candidates_of(f)
                == spec_value_of(f),
        decreases rates@.len() - ri,
    {
        let rate = rates[ri];
        let mut ci: usize = 0;
        while ci < channels_variants.len()
            invariant
                rs == rates@,
                cs == channels_variants@,
                forall|i: int| 0 <= i < rs.len() ==> 1 <= #[trigger] rs[i] <= i32::MAX,
                forall|j: int|
                    0 <= j < cs.len() ==> 1 <= #[trigger] cs[j] && cs[j] * 32 <= i32::MAX,
                ri < rs.len(),
                rate == rs[ri as int],
                ci <= cs.len(),
                cat.wf(),
                forall|f: Format| #[trigger] cat.spec_contains(f) <==> spec_grid_upto(
                    rs,
                    cs,
                    *limit,
                    f,
                    ri as int,
                    ci as int,
                    0,
                ),
                forall|f: Format| #[trigger] cat.spec_contains(f) ==> cat.spec_candidates_of(f)
                    == spec_value_of(f),
            decreases channels_variants@.len() - ci,
        {
            let channels = channels_variants[ci];
            if limit.accepts(rate, channels) {
                let mut ki: usize = 0;
                while ki < 4
                    invariant
                        rs == rates@,
                        cs == channels_variants@,
                        forall|i: int| 0 <= i < rs.len() ==> 1 <= #[trigger] rs[i] <= i32::MAX,
                        forall|j: int|
                            0 <= j < cs.len() ==> 1 <= #[trigger] cs[j] && cs[j] * 32
                                <= i32::MAX,
                        ri < rs.len(),
                        ci < cs.len(),
                        rate == rs[ri as int],
                        channels == cs[ci as int],
                        limit.spec_accepts(rate, channels),
                        ki <= 4,
                        cat.wf(),
                        forall|f: Format| #[trigger] cat.spec_contains(f) <==> spec_grid_upto(
                            rs,
                            cs,
                            *limit,
                            f,
                            ri as int,
                            ci as int,
                            ki as int,
                        ),
                        forall|f: Format| #[trigger] cat.spec_contains(f)
                            ==> cat.spec_candidates_of(f) == spec_value_of(f),
                    decreases 4 - ki,
                {
                    let (validbits, storebits) = bits_variant(ki);
                    let fmt = Format {
                        validbits: validbits as i32,
                        frame_bytes: ((channels * storebits) / 8) as i32,
                        channels: channels as i32,
                        rate: rate as i32,
                    };
                    let cands = get_possible_formats(storebits, validbits, rate, channels);
                    let ghost old_cat = cat;
                    cat.insert(fmt, cands);
                    proof {
                        assert(fmt == spec_format_for(rate, channels, validbits, storebits));
                        lemma_value_recover(rate, channels, validbits, storebits);
                        assert forall|f: Format| #[trigger] cat.spec_contains(f)
                            <==> spec_grid_upto(
                            rs,
                            cs,
                            *limit,
                            f,
                            ri as int,
                            ci as int,
                            ki + 1,
                        ) by {
                            lemma_grid_insert_step(
                                rs,
                                cs,
                                *limit,
                                f,
                                ri as int,
                                ci as int,
                                ki as int,
                            );
                            assert(cat.spec_contains(f) <==> old_cat.spec_contains(f) || f
                                == fmt);
                        }
                        assert forall|f: Format| #[trigger] cat.spec_contains(f) implies
                            cat.spec_candidates_of(f) == spec_value_of(f) by {
                            if f != fmt {
                                assert(old_cat.spec_contains(f));
                            }
                        }
                    }
                    ki = ki + 1;
                }
                proof {
                    assert forall|f: Format| #[trigger] cat.spec_contains(f) <==> spec_grid_upto(
                        rs,
                        cs,
                        *limit,
                        f,
                        ri as int,
                        ci + 1,
                        0,
                    ) by {
                        lemma_grid_inner_done(rs, cs, *limit, f, ri as int, ci as int);
                    }
                }
            } else {
                proof {
                    assert forall|f: Format| #[trigger] cat.spec_contains(f) <==> spec_grid_upto(
                        rs,
                        cs,
                        *limit,
                        f,
                        ri as int,
                        ci + 1,
                        0,
                    ) by {
                        lemma_grid_skip(rs, cs, *limit, f, ri as int, ci as int);
                    }
                }
            }
            ci = ci + 1;
        }
        proof {
            assert forall|f: Format| #[trigger] cat.spec_contains(f) <==> spec_grid_upto(
                rs,
                cs,
                *limit,
                f,
                ri + 1,
                0,
                0,
            ) by {
                lemma_grid_outer_done(rs, cs, *limit, f, ri as int);
            }
        }
        ri = ri + 1;
    }
    cat
}

} // verus!
