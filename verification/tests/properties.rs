//! What holds of all inputs, on some of them.

use ripsaw::mvc::annexb::{NalReader, NalSplitter};
use ripsaw::mvc::bitstream::{BitReader, ReadError};
use ripsaw::mvc::clip::dep_list::{build_dep_l0, DRef};
use ripsaw::mvc::deblock::{filter_chroma, filter_luma_normal, filter_luma_strong};
use ripsaw::mvc::intra::{
    derive_intra_mode, predict_16x16, predict_4x4, predict_8x8, predict_chroma_8x8, Intra4x4Mode,
    Neighbors4x4, Neighbors8x8, NeighborsNxN, PlaneMode,
};
use ripsaw::mvc::mb_residual::CbpBits;
use ripsaw::mvc::mc::{mc_chroma, mc_luma, Plane};
use ripsaw::mvc::mkv_extract::{count_length_prefixed, write_length_prefixed};
use ripsaw::mvc::mv::{predict_mv, Directional};
use ripsaw::mvc::rbsp::extract_rbsp;
use ripsaw::mvc::recon::split_bands;
use ripsaw::mvc::recon_inter::{temporal_direct, MotionField};
use ripsaw::mvc::ref_pic_list_modification::RefPicListModification;
use ripsaw::mvc::reflist::{apply_mmco, init_b_lists, init_p_list0, DpbRef};
use ripsaw::mvc::sei::ArrangementType;
use ripsaw::mvc::slice_header::Mmco;
use ripsaw::mvc::transform::{
    chroma_dc_2x2, dequant_4x4, idct_4x4, inverse_8x8, inverse_scan_4x4, inverse_scan_8x8,
    luma_dc_4x4,
};
use ripsaw::naming::jellyfin::Jellyfin;
use ripsaw::naming::kodi::Kodi;
use ripsaw::naming::plex::Plex;
use ripsaw::naming::{join, sanitise, EpisodeContext, MovieContext, Scheme};
use ripsaw::text::{parse_natural, put_number, put_two_digits};

// ---- bits and bytes ----

fn packed(bits: &[u8]) -> Vec<u8> {
    let mut b = bits.to_vec();
    while b.len() % 8 != 0 {
        b.push(0);
    }
    b.chunks(8).map(|c| c.iter().fold(0u8, |a, &x| (a << 1) | x)).collect()
}

fn golomb(v: u32) -> Vec<u8> {
    let x = v as u64 + 1;
    let n = 64 - x.leading_zeros();
    let mut out = vec![0; n as usize - 1];
    out.extend((0..n).rev().map(|k| ((x >> k) & 1) as u8));
    out
}

#[test]
fn golomb_codes_come_back() {
    for v in [0, 1, 2, 3, 6, 7, 254, 255, 65_535, 1 << 30, u32::MAX - 1] {
        let bits = golomb(v);
        let data = packed(&bits);
        let mut r = BitReader::new(&data);
        assert_eq!(r.read_ue(), Ok(v));
        assert_eq!(r.position_bits(), bits.len());
    }
    for v in [0, 1, -1, 2, -2, 1000, -1000, i32::MAX, -i32::MAX] {
        let code = if v > 0 { 2 * v as u32 - 1 } else { 2 * v.unsigned_abs() };
        let data = packed(&golomb(code));
        assert_eq!(BitReader::new(&data).read_se(), Ok(v));
    }
}

#[test]
fn long_golomb_codes_are_refused() {
    let zeros = [0u8; 9];
    assert_eq!(BitReader::new(&zeros).read_ue(), Err(ReadError::ExpGolombOverflow));
    assert_eq!(BitReader::new(&zeros[..3]).read_ue(), Err(ReadError::Truncated));
}

#[test]
fn numbers_come_back() {
    let data = 0xDEAD_BEEF_0123_4567u64.to_be_bytes();
    for n in 1..=32u32 {
        let mut r = BitReader::new(&data);
        assert_eq!(r.read_u(n).unwrap() as u64, 0xDEAD_BEEF_0123_4567u64 >> (64 - n));
    }
}

fn escaped(rbsp: &[u8]) -> Vec<u8> {
    let mut out = Vec::new();
    let mut zeros = 0;
    for &b in rbsp {
        if zeros == 2 && b <= 3 {
            out.push(3);
            zeros = 0;
        }
        out.push(b);
        zeros = if b == 0 { zeros + 1 } else { 0 };
    }
    out
}

#[test]
fn escaped_payloads_come_back() {
    let cases: [&[u8]; 6] = [
        &[],
        &[0, 0, 0, 0, 0],
        &[0, 0, 1, 0, 0, 2, 0, 0, 3],
        &[3, 0, 0, 3, 0, 0, 3, 3],
        &[7, 0, 0, 4, 0, 0],
        &[1, 2, 3],
    ];
    for c in cases {
        assert_eq!(extract_rbsp(&escaped(c)), c);
        assert!(extract_rbsp(c).len() <= c.len());
    }
}

fn split(data: &[u8]) -> Vec<Vec<u8>> {
    let mut s = NalSplitter::new(data);
    let mut out = Vec::new();
    while let Some(u) = s.next() {
        out.push(u.to_vec());
    }
    out
}

#[test]
fn streams_in_pieces_give_the_same_units() {
    let data = [9, 0, 0, 1, 0x67, 1, 0, 0, 0, 1, 0x68, 0, 2, 0, 0, 1, 0x65, 0, 0];
    let whole = split(&data);
    assert_eq!(whole, vec![vec![0x67, 1], vec![0x68, 0, 2], vec![0x65]]);
    for a in 0..data.len() {
        for b in a..data.len() {
            let mut r = NalReader::new();
            let mut found = Vec::new();
            for piece in [&data[..a], &data[a..b], &data[b..]] {
                r.push(piece);
                while let Some(u) = r.next() {
                    found.push(u);
                }
            }
            found.extend(r.finish());
            assert_eq!(found, whole);
        }
    }
}

#[test]
fn an_empty_last_unit_is_given_once() {
    let data = [0, 0, 1, 0x67, 0, 0, 1];
    assert_eq!(split(&data), vec![vec![0x67], vec![]]);
    for step in 1..=data.len() {
        let mut r = NalReader::new();
        let mut found = Vec::new();
        for piece in data.chunks(step) {
            r.push(piece);
            while let Some(u) = r.next() {
                found.push(u);
            }
        }
        found.extend(r.finish());
        assert_eq!(found, split(&data));
        assert_eq!(r.finish(), None);
    }
}

#[test]
fn units_behind_lengths_become_units_behind_start_codes() {
    let units: [&[u8]; 3] = [&[0x67, 1], &[0x68], &[0x65, 0, 7]];
    for n in 1..=4usize {
        let mut data = Vec::new();
        for u in units {
            data.extend_from_slice(&(u.len() as u32).to_be_bytes()[4 - n..]);
            data.extend_from_slice(u);
        }
        data.push(200);
        let mut out = Vec::new();
        write_length_prefixed(&mut out, &data, n);
        assert_eq!(split(&out), units);
        assert_eq!(count_length_prefixed(&data, n), 3);
    }
}

// ---- samples ----

const MODES: [Intra4x4Mode; 9] = [
    Intra4x4Mode::Vertical,
    Intra4x4Mode::Horizontal,
    Intra4x4Mode::Dc,
    Intra4x4Mode::DiagDownLeft,
    Intra4x4Mode::DiagDownRight,
    Intra4x4Mode::VerticalRight,
    Intra4x4Mode::HorizontalDown,
    Intra4x4Mode::VerticalLeft,
    Intra4x4Mode::HorizontalUp,
];

#[test]
fn uniform_neighbourhoods_are_reproduced() {
    for v in [0, 77, 255] {
        let small =
            Neighbors4x4 { top: [v; 8], left: [v; 4], corner: v, top_avail: true, left_avail: true };
        let middle = Neighbors8x8 {
            top: [v; 16],
            left: [v; 8],
            corner: v,
            top_avail: true,
            left_avail: true,
            corner_avail: true,
        };
        assert_eq!(middle.filtered().top, middle.top);
        for m in MODES {
            assert_eq!(predict_4x4(m, &small), [[v; 4]; 4]);
            assert_eq!(predict_8x8(m, &middle), [[v; 8]; 8]);
        }
        let large = NeighborsNxN {
            top: [v; 16],
            left: [v; 16],
            corner: v,
            top_avail: true,
            left_avail: true,
        };
        for m in [PlaneMode::Vertical, PlaneMode::Horizontal, PlaneMode::Dc, PlaneMode::Plane] {
            assert_eq!(predict_16x16(m, &large), [[v; 16]; 16]);
            assert_eq!(predict_chroma_8x8(m, &large), [[v; 8]; 8]);
        }
    }
}

#[test]
fn coded_modes_differ_from_the_predicted_one() {
    for a in 0..9u8 {
        for b in 0..9u8 {
            let p = derive_intra_mode(Some(a), Some(b), -1);
            assert_eq!(p, a.min(b));
            let mut seen: Vec<u8> = (0..8).map(|r| derive_intra_mode(Some(a), Some(b), r)).collect();
            seen.push(p);
            seen.sort();
            assert_eq!(seen, vec![0, 1, 2, 3, 4, 5, 6, 7, 8]);
        }
    }
    assert_eq!(derive_intra_mode(None, Some(0), -1), 2);
}

#[test]
fn single_coefficients_give_flat_residuals() {
    for v in [-700, -33, -1, 0, 31, 32, 640] {
        let mut d = [[0i32; 4]; 4];
        d[0][0] = v;
        assert_eq!(idct_4x4(&d), [[(v + 32) >> 6; 4]; 4]);
        let mut e = [[0i32; 8]; 8];
        e[0][0] = v;
        assert_eq!(inverse_8x8(&e), [[v; 8]; 8]);
    }
}

#[test]
fn flat_fields_gather_in_one_coefficient() {
    let d = luma_dc_4x4(&[[3; 4]; 4], 36);
    assert_eq!(d[0][0], 16 * 3 * 10 * 16);
    assert!(d.iter().flatten().skip(1).all(|&v| v == 0));
    let c = chroma_dc_2x2(&[[3; 2]; 2], 30);
    assert_eq!(c, [[3 * 4 * 10 * 16, 0], [0, 0]]);
}

#[test]
fn scans_put_every_coefficient_somewhere() {
    let mut s = [0i32; 16];
    let mut t = [0i32; 64];
    for (k, v) in s.iter_mut().enumerate() {
        *v = k as i32;
    }
    for (k, v) in t.iter_mut().enumerate() {
        *v = k as i32;
    }
    let mut a: Vec<i32> = inverse_scan_4x4(&s).iter().flatten().copied().collect();
    let mut b: Vec<i32> = inverse_scan_8x8(&t).iter().flatten().copied().collect();
    assert_eq!((a[0], a[1], a[4], a[8]), (0, 1, 2, 3));
    assert_eq!((b[0], b[1], b[8], b[16]), (0, 1, 2, 3));
    a.sort();
    b.sort();
    assert_eq!(a, s);
    assert_eq!(b, t);
}

#[test]
fn flat_lines_and_real_edges_stay() {
    let lines = [[64; 8], [10, 10, 10, 10, 30, 30, 30, 30]];
    for line in lines {
        let mut s = line;
        filter_luma_normal(&mut s, 20, 18, 25);
        filter_luma_strong(&mut s, 20, 18);
        filter_chroma(&mut s, 20, 18, 25, false);
        filter_chroma(&mut s, 20, 18, 25, true);
        assert_eq!(s, line);
    }
    let mut s = [10, 10, 10, 10, 28, 28, 28, 28];
    filter_chroma(&mut s, 20, 18, 25, true);
    assert_eq!(s, [10, 10, 10, 15, 24, 28, 28, 28]);
}

#[test]
fn whole_vectors_copy_and_flat_references_stay() {
    let data: Vec<u8> = (0..32 * 32).map(|i| (i * 37 % 251) as u8).collect();
    let p = Plane { data: &data, w: 32, h: 32 };
    let luma = mc_luma(&p, 8, 8, 4 * 3, -4 * 5, 16, 8);
    let chroma = mc_chroma(&p, 8, 8, 8 * 3, -8 * 5, 8, 8);
    for y in 0..8i32 {
        for x in 0..16i32 {
            assert_eq!(luma[(16 * y + x) as usize] as i32, p.at(8 + x + 3, 8 + y - 5));
        }
        for x in 0..8i32 {
            assert_eq!(chroma[(8 * y + x) as usize] as i32, p.at(8 + x + 3, 8 + y - 5));
        }
    }
    let flat = [93u8; 32 * 32];
    let q = Plane { data: &flat, w: 32, h: 32 };
    for f in 0..16 {
        assert_eq!(mc_luma(&q, 0, 0, f % 4 - 40, f / 4 + 90, 4, 4), vec![93; 16]);
        assert_eq!(mc_chroma(&q, 0, 0, f % 8 - 40, f / 8 + 90, 4, 4), vec![93; 16]);
    }
}

#[test]
fn bands_join_to_the_buffer() {
    let start: Vec<u8> = (0..20).collect();
    let mut buf = start.clone();
    let bands = split_bands(&mut buf, &[0, 7, 7, 20]);
    assert_eq!(bands.iter().map(|b| b.len()).collect::<Vec<_>>(), vec![0, 7, 0, 13]);
    assert_eq!(bands.concat(), start);
}

#[test]
fn what_is_written_through_bands_reaches_the_buffer() {
    let mut buf: Vec<u8> = (0..10).collect();
    let mut bands = split_bands(&mut buf, &[3, 3, 8]);
    bands[0][1] = 50;
    bands[2][0] = 60;
    bands[2][4] = 70;
    assert_eq!(buf, vec![0, 50, 2, 60, 4, 5, 6, 70, 8, 9]);
}

#[test]
fn block_flags_are_apart() {
    let c = CbpBits(1 << 3 | 1 << 16);
    for by in 0..4 {
        for bx in 0..4 {
            assert_eq!(c.luma4x4_nonzero(bx, by), (bx, by) == (2, 0) || (bx, by) == (3, 3));
        }
    }
}

// ---- motion and references ----

#[test]
fn predicted_vectors_come_from_neighbours() {
    let v = Some((7, -3, 2));
    for dir in [None, Some(Directional::Left), Some(Directional::Above), Some(Directional::AboveRight)] {
        assert_eq!(predict_mv(v, v, v, 0, dir), (7, -3));
        assert_eq!(predict_mv(v, v, v, 2, dir), (7, -3));
    }
    let (a, b, c) = (Some((1, 60, 0)), Some((50, 2, 0)), Some((9, 9, 1)));
    assert_eq!(predict_mv(a, b, c, 0, None), (9, 9));
    assert_eq!(predict_mv(a, b, c, 1, None), (9, 9));
    assert_eq!(predict_mv(None, None, None, 0, None), (0, 0));
}

#[test]
fn halfway_vectors_are_halved() {
    for v in [-9, -8, 0, 5, 40] {
        let col = MotionField {
            mv: vec![(v, v)],
            refidx: vec![0],
            refpoc: vec![0],
            nz: vec![false],
            bw4: 1,
            bh4: 1,
        };
        let r = temporal_direct(&col, 0, &[vec![0], vec![16]], 8);
        let half = (v + 1) >> 1;
        assert_eq!((r.0, r.1), ((half, half), (half - v, half - v)));
    }
}

#[test]
fn initial_lists_hold_every_picture_once() {
    let long = |i: i32| DpbRef { frame_num: 0, poc: 3, long_term: true, long_term_frame_idx: i };
    let dpb = vec![DpbRef::short(5, 10), long(2), DpbRef::short(9, 2), long(0), DpbRef::short(1, 30)];
    for list in [
        init_p_list0(&dpb, 6, 16),
        init_b_lists(&dpb, 12).0,
        init_b_lists(&dpb, 12).1,
    ] {
        let mut l = list;
        l.sort();
        assert_eq!(l, vec![0, 1, 2, 3, 4]);
    }
}

#[test]
fn long_term_indices_stay_unique() {
    let mut dpb = vec![DpbRef::short(1, 2), DpbRef::short(2, 4), DpbRef::short(3, 6)];
    let ops = [
        Mmco::ShortToLong { diff_pic_nums_minus1: 2, long_term_frame_idx: 1 },
        Mmco::ShortToLong { diff_pic_nums_minus1: 1, long_term_frame_idx: 1 },
        Mmco::CurrentToLong { long_term_frame_idx: 0 },
    ];
    assert_eq!(apply_mmco(&mut dpb, &ops, 4, 16), Some(0));
    let longs: Vec<i32> =
        dpb.iter().filter(|d| d.long_term).map(|d| d.long_term_frame_idx).collect();
    assert_eq!(longs, vec![1]);
    assert_eq!(dpb.len(), 2);
}

#[test]
fn dependent_lists_name_no_picture_twice() {
    assert_eq!(
        build_dep_l0(&None, 3, 4, false),
        vec![DRef::Temporal(0), DRef::Temporal(1), DRef::Temporal(2)]
    );
    assert_eq!(build_dep_l0(&None, 3, 4, true), vec![DRef::InterView]);
    let mods = Some(vec![
        RefPicListModification::InterViewSub { abs_diff_view_idx_minus1: 0 },
        RefPicListModification::PicNumSub { abs_diff_pic_num_minus1: 1 },
    ]);
    let list = build_dep_l0(&mods, 4, 2, false);
    assert!(list.len() <= 4);
    for (i, a) in list.iter().enumerate() {
        assert!(list[..i].iter().all(|b| b != a));
    }
    assert_eq!(list[0], DRef::InterView);
}

#[test]
fn arrangements_keep_their_numbers() {
    for v in 0..=255u8 {
        match ArrangementType::from_u8(v) {
            Some(t) => assert_eq!((t.as_u8(), v <= 6), (v, true)),
            None => assert!(v > 6),
        }
    }
}

// ---- names ----

#[test]
fn clean_names_stay() {
    for name in ["a: b", "  x\t\ty  ", "What? <No>", "...", "tail. . ", "", "é\u{a0}ü"] {
        let once = sanitise(name);
        assert_eq!(sanitise(&once), once);
        assert!(!once.contains('/') && !once.contains("  "));
    }
}

fn chars(s: &str) -> Vec<char> {
    s.chars().collect()
}

#[test]
fn joined_paths_keep_their_root() {
    assert_eq!(join(chars("/m"), chars("a")), chars("/m/a"));
    assert_eq!(join(chars("/m/"), chars("a")), chars("/m/a"));
    assert_eq!(join(chars(""), chars("a")), chars("a"));
    assert_eq!(join(chars("/m"), chars("/a")), chars("/a"));
}

#[test]
fn digits_stand_for_their_number() {
    for n in [0, 7, 10, 99, 1234567890, u64::MAX] {
        let mut out = Vec::new();
        put_number(&mut out, n);
        assert_eq!(out.iter().collect::<String>(), n.to_string());
        assert_eq!(parse_natural(&out, u64::MAX), Some(n));
    }
    let mut out = Vec::new();
    put_two_digits(&mut out, 7);
    put_two_digits(&mut out, 123);
    assert_eq!(out, chars("07123"));
}

#[test]
fn files_stay_below_the_root() {
    let m = MovieContext {
        root: "/lib",
        title: "/etc/passwd",
        year: None,
        tmdb_id: None,
        imdb_id: None,
        variant: None,
    };
    let e = EpisodeContext {
        root: "/lib",
        series_title: "/",
        series_year: None,
        tmdb_id: None,
        imdb_id: None,
        tvdb_id: None,
        season: 1,
        episode: 2,
        episode_end: None,
        episode_title: Some("/a"),
    };
    for path in [Jellyfin.movie_path(&m), Plex.movie_path(&m), Kodi.movie_path(&m)] {
        assert_eq!(path, "/lib/etc passwd/etc passwd.mkv");
    }
    assert_eq!(Jellyfin.episode_path(&e), "/lib/Season 01/ S01E02 - a.mkv");
    assert_eq!(Plex.episode_path(&e), "/lib/Season 01/ - s01e02.mkv");
    assert_eq!(Kodi.episode_path(&e), "/lib/Season 01/ S01E02 a.mkv");
}

// ---- steps that undo or repeat each other ----

#[test]
fn six_quantiser_steps_double_the_values() {
    let levels = [[1, -2, 3, 0], [4096, -4096, 7, 0], [5, 0, 9, -1], [0, 2, -2, 11]];
    for qp in 24..=45 {
        let (mut a, mut b) = (levels, levels);
        dequant_4x4(&mut a, qp);
        dequant_4x4(&mut b, qp + 6);
        for i in 0..4 {
            for j in 0..4 {
                assert_eq!(b[i][j], 2 * a[i][j]);
            }
        }
    }
    let mut one = [[1; 4]; 4];
    dequant_4x4(&mut one, 24);
    assert_eq!((one[0][0], one[1][1], one[0][1]), (160, 256, 208));
    for qp in 0..=51 {
        let mut zero = [[0; 4]; 4];
        dequant_4x4(&mut zero, qp);
        assert_eq!(zero, [[0; 4]; 4]);
    }
}

#[test]
fn whole_samples_of_a_vector_shift_the_block() {
    let data: Vec<u8> = (0..24 * 20).map(|i| (i * 37 % 251) as u8).collect();
    let p = Plane { data: &data, w: 24, h: 20 };
    for f in 0..16 {
        let (x, y) = (f % 4 - 6, f / 4 + 3);
        for (a, b) in [(1, 0), (-3, 2), (9, -14)] {
            let far = mc_luma(&p, 5, 6, x + 4 * a, y + 4 * b, 8, 4);
            assert_eq!(far, mc_luma(&p, 5 + a, 6 + b, x, y, 8, 4));
            let far = mc_chroma(&p, 5, 6, x + 8 * a, y + 8 * b, 4, 2);
            assert_eq!(far, mc_chroma(&p, 5 + a, 6 + b, x, y, 4, 2));
        }
    }
}

#[test]
fn operations_forget_and_keep_the_order() {
    let mut dpb = vec![
        DpbRef::short(1, 10),
        DpbRef::short(2, 6),
        DpbRef::short(3, 8),
        DpbRef::short(4, 2),
    ];
    let ops = [
        Mmco::CurrentToLong { long_term_frame_idx: 5 },
        Mmco::ShortToLong { diff_pic_nums_minus1: 2, long_term_frame_idx: 1 },
        Mmco::ForgetShort { diff_pic_nums_minus1: 1 },
        Mmco::CurrentToLong { long_term_frame_idx: 3 },
    ];
    assert_eq!(apply_mmco(&mut dpb, &ops, 5, 16), Some(3));
    let left: Vec<(i32, i32, bool)> =
        dpb.iter().map(|r| (r.frame_num, r.poc, r.long_term)).collect();
    assert_eq!(left, vec![(1, 10, false), (2, 6, true), (4, 2, false)]);
    let reset = [ops[3], Mmco::ResetAll, ops[2]];
    assert_eq!(apply_mmco(&mut dpb, &reset, 5, 16), None);
    assert!(dpb.is_empty());
}

#[test]
fn reading_never_goes_back() {
    let data = [0x00, 0x10, 0xa4, 0x00, 0x00, 0x00, 0x00];
    let mut r = BitReader::new(&data);
    let mut last = 0;
    for k in 0..40 {
        let failed = match k % 4 {
            0 => r.read_bit().is_err(),
            1 => r.read_u(5).is_err(),
            2 => r.read_ue().is_err(),
            _ => r.read_se().is_err(),
        };
        assert!(r.position_bits() >= last);
        assert!(failed || r.position_bits() > last);
        last = r.position_bits();
        assert_eq!(last as u64 + r.bits_left(), 56);
        assert_eq!(r.byte_aligned(), last % 8 == 0);
    }
    assert_eq!(last, 56);
}
