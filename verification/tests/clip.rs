//! Packed stereo pairs.

use ripsaw::mvc::clip::pack::{write_fsbs_nv12, write_fsbs_yuv420};
use ripsaw::mvc::recon::Frame;

fn ramp_frame(w: usize, h: usize, base: u8) -> Frame {
    let (fw, cw, ch) = (w + 8, w / 2 + 4, h / 2);
    let mut y = vec![0u8; fw * h];
    for row in 0..h {
        for col in 0..w {
            y[row * fw + col] = base.wrapping_add((row * 7 + col * 3) as u8);
        }
    }
    let mut cb = vec![0u8; cw * ch];
    let mut cr = vec![0u8; cw * ch];
    for row in 0..ch {
        for col in 0..w / 2 {
            cb[row * cw + col] = base.wrapping_add(0x40).wrapping_add((row + col) as u8);
            cr[row * cw + col] = base.wrapping_add(0x80).wrapping_add((row * 2 + col) as u8);
        }
    }
    Frame {
        y, cb, cr, fw, fh: h, cw, ch,
        width_mbs: w / 16, mb_info: Vec::new(), qp: Vec::new(),
        disable_deblock_idc: 0, slice_alpha_c0_offset_div2: 0, slice_beta_offset_div2: 0,
    }
}

#[test]
fn nv12_equals_yuv420p_to_nv12_transform() {
    let (w, h) = (32usize, 16usize);
    let (left, right) = (ramp_frame(w, h, 10), ramp_frame(w, h, 200));

    let mut p420 = Vec::new();
    write_fsbs_yuv420(&left, &right, w, h, &mut p420);
    let mut pnv12 = Vec::new();
    write_fsbs_nv12(&left, &right, w, h, &mut pnv12);

    let fw = 2 * w;
    let (cw, ch) = (fw / 2, h / 2);
    let ysz = fw * h;
    let planesz = cw * ch;
    assert_eq!(p420.len(), ysz + 2 * planesz);
    assert_eq!(pnv12.len(), ysz + 2 * planesz);

    assert_eq!(&pnv12[..ysz], &p420[..ysz], "Y plane differs");

    let u = &p420[ysz..ysz + planesz];
    let v = &p420[ysz + planesz..ysz + 2 * planesz];
    let uv = &pnv12[ysz..ysz + 2 * planesz];
    for i in 0..planesz {
        assert_eq!(uv[2 * i], u[i], "UV[{}] U mismatch", 2 * i);
        assert_eq!(uv[2 * i + 1], v[i], "UV[{}] V mismatch", 2 * i + 1);
    }
}
