use herdr_hop::cellsize::{find_subsequence, parse_report, query_cell_size, ReportScanner};
use herdr_hop::model::CellSize;

#[test]
fn parses_height_then_width_report() {
    let size = parse_report(b"\x1b[6;40;17t").unwrap();
    assert_eq!(
        size,
        CellSize {
            width_px: 17,
            height_px: 40
        }
    );
}

#[test]
fn finds_report_embedded_in_surrounding_bytes() {
    let size = parse_report(b"junk\x1b[6;20;10ttrailing").unwrap();
    assert_eq!(
        size,
        CellSize {
            width_px: 10,
            height_px: 20
        }
    );
}

#[test]
fn rejects_zero_dimensions_and_garbage() {
    assert!(parse_report(b"\x1b[6;0;10t").is_none());
    assert!(parse_report(b"\x1b[4;432;720t").is_none()); // pixel-area report, not cell size
    assert!(parse_report(b"no report here").is_none());
}

#[test]
fn accepts_a_plus_sign_as_str_parse_does() {
    assert_eq!(
        parse_report(b"\x1b[6;+38;16t"),
        Some(CellSize {
            width_px: 16,
            height_px: 38
        })
    );
    assert!(parse_report(b"\x1b[6;+;16t").is_none());
    assert!(parse_report(b"\x1b[6;-38;16t").is_none());
    assert!(parse_report(b"\x1b[6;;16t").is_none());
}

#[test]
fn rejects_values_beyond_u32_and_keeps_the_largest() {
    assert!(parse_report(b"\x1b[6;4294967296;16t").is_none());
    assert_eq!(
        parse_report(b"\x1b[6;4294967295;0016t"),
        Some(CellSize {
            width_px: 16,
            height_px: 4294967295
        })
    );
}

#[test]
fn a_t_before_the_semicolon_rejects_the_report() {
    // The first `t` after the introducer ends the report; here it comes before any `;`.
    assert!(parse_report(b"\x1b[6t;40;17t").is_none());
    // Only the first introducer is looked at.
    assert!(parse_report(b"\x1b[6;x;1t\x1b[6;40;17t").is_none());
}

#[test]
fn report_survives_trailing_bytes() {
    let mut buf = b"\x1b[6;40;17t".to_vec();
    let before = parse_report(&buf);
    buf.extend_from_slice(b"\x1b[6;1;1t more");
    assert_eq!(parse_report(&buf), before);
}

#[test]
fn finds_first_occurrence() {
    assert_eq!(find_subsequence(b"abcabc", b"bc"), Some(1));
    assert_eq!(find_subsequence(b"ab", b"abc"), None);
    assert_eq!(find_subsequence(b"xyz", b"z"), Some(2));
    assert_eq!(find_subsequence(b"xyz", b"q"), None);
}

#[test]
fn query_is_csi_16_t() {
    assert_eq!(query_cell_size(), b"\x1b[16t".to_vec());
}

#[test]
fn scanner_reports_once_the_final_t_arrives() {
    let mut scanner = ReportScanner::new();
    let reply = b"\x1b[6;40;17t";
    let mut got = None;
    for (i, &b) in reply.iter().enumerate() {
        let r = scanner.push(b);
        if i + 1 < reply.len() {
            assert!(r.is_none());
        }
        got = r;
    }
    assert_eq!(
        got,
        Some(CellSize {
            width_px: 17,
            height_px: 40
        })
    );
}

#[test]
fn measure_reads_report_from_byte_stream() {
    // The reply fed byte by byte, as the picker's loop does after writing the query.
    let mut scanner = ReportScanner::new();
    let size = b"\x1b[6;40;17t".iter().find_map(|&b| scanner.push(b)).unwrap();
    assert_eq!(
        size,
        CellSize {
            width_px: 17,
            height_px: 40
        }
    );
    assert_eq!(query_cell_size(), b"\x1b[16t".to_vec(), "the query that goes out");
}

#[test]
fn a_formatted_report_parses_back() {
    for &(h, w) in &[(1u32, 1u32), (38, 16), (4294967295, 10), (20, 4294967295)] {
        let buf = [&b"x\x1b[6"[..], format!("\x1b[6;{};{}t", h, w).as_bytes(), b"tail;t"].concat();
        assert_eq!(parse_report(&buf), Some(CellSize { width_px: w, height_px: h }));
    }
}
