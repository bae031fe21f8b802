//! Decoder traces.

use ripsaw::mvc::trace::{first_divergence, macroblock_elements, parse_trace, Comparison};

const SAMPLE: &str = "\
Annex B NALU w/ long startcode, len 52, forbidden_bit 0, nal_reference_idc 3, nal_unit_type 7
@0     SPS: profile_idc                                       01100100 (100)
@16    SPS: level_idc                                         00101001 ( 41)
@0      mb_type                                                         (  0)
@1      transform_size_8x8_flag                                         (  1)
@2      intra4x4_pred_mode                                              ( -1)
@7      coded_block_pattern                                             (  1)
@8      mb_qp_delta                                                     (  0)
@9      Luma sng                                                   -3    2
";

#[test]
fn parses_header_and_cabac_elements() {
    let elems = parse_trace(SAMPLE);
    assert_eq!(elems.len(), 8);

    let sps = &elems[0];
    assert_eq!(sps.name, "SPS: profile_idc");
    assert_eq!(sps.value, 100);
    assert!(sps.is_header);

    let mbt = &elems[2];
    assert_eq!(mbt.name, "mb_type");
    assert_eq!(mbt.value, 0);
    assert!(!mbt.is_header);

    assert_eq!(elems[4].value, -1);
}

#[test]
fn parses_residual_run_level_line() {
    let elems = parse_trace(SAMPLE);
    let res = elems.last().unwrap();
    assert_eq!(res.name, "Luma sng");
    assert_eq!(res.value, -3);
    assert_eq!(res.value2, Some(2));
    assert!(!res.is_header);
}

#[test]
fn macroblock_elements_drops_headers() {
    let elems = parse_trace(SAMPLE);
    let mb = macroblock_elements(&elems);
    assert_eq!(mb.len(), 6);
    assert_eq!(mb[0].name, "mb_type");
}

#[test]
fn first_divergence_pinpoints_mismatch() {
    let elems = parse_trace(SAMPLE);
    let mb = macroblock_elements(&elems);

    let good: Vec<(String, i64)> = mb.iter().map(|e| (e.name.clone(), e.value)).collect();
    assert_eq!(first_divergence(&mb, &good), Comparison::Match { count: 6 });

    let mut bad = good.clone();
    bad[3].1 = 9;
    match first_divergence(&mb, &bad) {
        Comparison::Diverged { position, reference, decoded } => {
            assert_eq!(position, 3);
            assert_eq!(reference, ("coded_block_pattern".into(), 1));
            assert_eq!(decoded, ("coded_block_pattern".into(), 9));
        }
        other => panic!("expected divergence, got {other:?}"),
    }

    assert_eq!(
        first_divergence(&mb, &good[..3]),
        Comparison::LengthMismatch { common: 3, reference_len: 6, decoded_len: 3 }
    );
}
