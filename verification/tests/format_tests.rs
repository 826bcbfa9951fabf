use wasapi_core::formats::{
    channel_masks, collect_formats, get_possible_formats, init_format_variants, CandidateLayout,
    ComboLimit, Format, FormatCatalog, WaveFormatCandidate, NOT_SPECIFIED, SPEAKER_5POINT1, SPEAKER_5POINT1_SURROUND,
    SPEAKER_FRONT_CENTER, SPEAKER_QUAD, SPEAKER_STEREO, SPEAKER_SURROUND,
};

#[test]
fn channel_masks_follow_the_table() {
    assert_eq!(channel_masks(1), vec![SPEAKER_FRONT_CENTER]);
    assert_eq!(channel_masks(2), vec![SPEAKER_STEREO]);
    assert_eq!(channel_masks(4), vec![SPEAKER_QUAD, SPEAKER_SURROUND]);
    assert_eq!(channel_masks(6), vec![SPEAKER_5POINT1, SPEAKER_5POINT1_SURROUND]);
    assert_eq!(channel_masks(0), Vec::<u32>::new());
    assert_eq!(channel_masks(9), Vec::<u32>::new());
}

#[test]
fn stereo_small_candidates_end_with_legacy() {
    let c = get_possible_formats(16, 16, 44100, 2);
    assert_eq!(c.len(), 3);
    assert_eq!(c[0].layout, CandidateLayout::ExtensibleMask(SPEAKER_STEREO));
    assert_eq!(c[1].layout, CandidateLayout::ExtensibleMask(0));
    assert_eq!(c[2].layout, CandidateLayout::Legacy);
    for x in &c {
        assert_eq!((x.storebits, x.validbits, x.rate, x.channels), (16, 16, 44100, 2));
    }
}

#[test]
fn surround_candidates_include_default_mask_and_no_legacy() {
    let c = get_possible_formats(32, 24, 48000, 6);
    assert_eq!(c.len(), 4);
    assert_eq!(c[0].layout, CandidateLayout::ExtensibleMask(SPEAKER_5POINT1));
    assert_eq!(c[1].layout, CandidateLayout::ExtensibleMask(SPEAKER_5POINT1_SURROUND));
    assert_eq!(c[2].layout, CandidateLayout::ExtensibleDefaultMask);
    assert_eq!(c[3].layout, CandidateLayout::ExtensibleMask(0));
}

#[test]
fn format_from_candidate_recovers_shape() {
    let c = WaveFormatCandidate {
        storebits: 32,
        validbits: 24,
        rate: 96000,
        channels: 2,
        layout: CandidateLayout::ExtensibleMask(SPEAKER_STEREO),
    };
    let f = Format::from_candidate(&c);
    assert_eq!(f, Format { validbits: 24, frame_bytes: 8, channels: 2, rate: 96000 });
}

#[test]
fn catalog_build_covers_the_grid() {
    let rates: Vec<usize> = vec![44100, 48000];
    let channels: Vec<usize> = vec![2];
    let cat = init_format_variants(&rates, &channels, &ComboLimit::All);
    // two rates x one channel count x four bit shapes
    assert_eq!(cat.entry_count(), 8);
    let key = Format { validbits: 24, frame_bytes: 8, channels: 2, rate: 48000 };
    let cands = cat.candidates_for(&key).expect("24/32 at 48000 stereo must be in the catalog");
    // the stereo mask, then the zero mask; no legacy shape above 16 bits
    assert_eq!(cands.len(), 2);
    assert_eq!(cands[0].storebits, 32);
    assert_eq!(cands[0].validbits, 24);
    let absent = Format { validbits: 16, frame_bytes: 4, channels: 2, rate: 96000 };
    assert!(cat.candidates_for(&absent).is_none());
}

#[test]
fn catalog_limit_refuses_heavy_pairs() {
    let rates: Vec<usize> = vec![44100, 192000];
    let channels: Vec<usize> = vec![2, 8];
    let limit = ComboLimit::Limited { max_rate: 96000, max_channels: 2 };
    let cat = init_format_variants(&rates, &channels, &limit);
    // (192000, 8) is refused, the other three pairs stand, 4 shapes each
    assert_eq!(cat.entry_count(), 12);
    let heavy = Format { validbits: 16, frame_bytes: 16, channels: 8, rate: 192000 };
    assert!(cat.candidates_for(&heavy).is_none());
    let light = Format { validbits: 16, frame_bytes: 16, channels: 8, rate: 44100 };
    assert!(cat.candidates_for(&light).is_some());
}

#[test]
fn catalog_insert_replaces_same_key() {
    let mut cat = FormatCatalog::new();
    let key = Format { validbits: 16, frame_bytes: 4, channels: 2, rate: 44100 };
    cat.insert(key, get_possible_formats(16, 16, 44100, 2));
    cat.insert(key, get_possible_formats(16, 16, 44100, 2));
    assert_eq!(cat.entry_count(), 1);
}

#[test]
fn collect_formats_appends_one_sentinel_per_depth() {
    let a = Format { validbits: 16, frame_bytes: 4, channels: 2, rate: 44100 };
    let b = Format { validbits: 24, frame_bytes: 8, channels: 2, rate: 44100 };
    let c = Format { validbits: 16, frame_bytes: 4, channels: 2, rate: 48000 };
    let probed = vec![Some(a), None, Some(b), Some(c)];
    let out = collect_formats(&probed);
    assert_eq!(out.len(), 5);
    assert_eq!(out[0], a);
    assert_eq!(out[1], b);
    assert_eq!(out[2], c);
    assert_eq!(
        out[3],
        Format {
            validbits: 16,
            frame_bytes: NOT_SPECIFIED,
            channels: NOT_SPECIFIED,
            rate: NOT_SPECIFIED
        }
    );
    assert_eq!(
        out[4],
        Format {
            validbits: 24,
            frame_bytes: NOT_SPECIFIED,
            channels: NOT_SPECIFIED,
            rate: NOT_SPECIFIED
        }
    );
}

#[test]
fn collect_formats_of_nothing_is_empty() {
    let probed: Vec<Option<Format>> = vec![None, None];
    assert!(collect_formats(&probed).is_empty());
}
