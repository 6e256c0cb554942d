use scenter::badge::{argb_bytes, badge_from_rgba, badge_icon, canvas_from_rgba, draw_digit, fill_circle, Canvas};

const RED: (u8, u8, u8, u8) = (227, 57, 53, 255);
const WHITE: (u8, u8, u8, u8) = (255, 255, 255, 255);

fn blank(w: u32, h: u32) -> Canvas {
    canvas_from_rgba(w, h, &vec![0u8; (4 * w * h) as usize]).unwrap()
}

fn painted(c: &Canvas, color: (u8, u8, u8, u8)) -> Vec<(usize, usize)> {
    let mut out = Vec::new();
    for (y, row) in c.rows.iter().enumerate() {
        for (x, p) in row.iter().enumerate() {
            if *p == color {
                out.push((x, y));
            }
        }
    }
    out
}

#[test]
fn canvas_rows_follow_the_buffer() {
    let data: Vec<u8> = (0u8..24).collect();
    let c = canvas_from_rgba(3, 2, &data).unwrap();
    assert_eq!(c.width, 3);
    assert_eq!(c.rows.len(), 2);
    assert_eq!(c.rows[0][0], (0, 1, 2, 3));
    assert_eq!(c.rows[0][2], (8, 9, 10, 11));
    assert_eq!(c.rows[1][0], (12, 13, 14, 15));
    assert_eq!(c.rows[1][2], (20, 21, 22, 23));
}

#[test]
fn canvas_refuses_a_short_buffer() {
    assert!(canvas_from_rgba(3, 2, &vec![0u8; 23]).is_none());
    assert!(canvas_from_rgba(3, 2, &vec![0u8; 25]).is_none());
    assert!(canvas_from_rgba(0, 0, &Vec::new()).is_some());
}

#[test]
fn circle_of_radius_one_is_a_plus() {
    let mut c = blank(5, 5);
    fill_circle(&mut c, 2, 2, 1, RED);
    let mut got = painted(&c, RED);
    got.sort();
    assert_eq!(got, vec![(1, 2), (2, 1), (2, 2), (2, 3), (3, 2)]);
}

#[test]
fn circle_is_clipped_at_the_edges() {
    let mut c = blank(4, 4);
    fill_circle(&mut c, 0, 0, 2, RED);
    let mut got = painted(&c, RED);
    got.sort();
    // dx*dx + dy*dy <= 4 within the canvas
    assert_eq!(got, vec![(0, 0), (0, 1), (0, 2), (1, 0), (1, 1), (2, 0)]);
}

#[test]
fn negative_radius_paints_nothing() {
    let mut c = blank(4, 4);
    fill_circle(&mut c, 1, 1, -1, RED);
    assert!(painted(&c, RED).is_empty());
}

#[test]
fn digit_one_glyph() {
    let mut c = blank(5, 7);
    draw_digit(&mut c, 1, 2, 3, WHITE);
    let mut got = painted(&c, WHITE);
    got.sort();
    // rows of "1": 010 / 110 / 010 / 010 / 111, top-left at (1, 1)
    let mut want = vec![(2, 1), (1, 2), (2, 2), (2, 3), (2, 4), (1, 5), (2, 5), (3, 5)];
    want.sort();
    assert_eq!(got, want);
}

#[test]
fn ten_and_more_draw_an_exclamation_mark() {
    let mut a = blank(5, 7);
    draw_digit(&mut a, 10, 2, 3, WHITE);
    let mut b = blank(5, 7);
    draw_digit(&mut b, 42, 2, 3, WHITE);
    let mut got = painted(&a, WHITE);
    got.sort();
    assert_eq!(got, vec![(2, 1), (2, 2), (2, 3), (2, 5)]);
    assert_eq!(painted(&a, WHITE), painted(&b, WHITE));
}

#[test]
fn argb_reorders_each_pixel() {
    let data: Vec<u8> = vec![1, 2, 3, 4, 5, 6, 7, 8];
    let c = canvas_from_rgba(2, 1, &data).unwrap();
    assert_eq!(argb_bytes(&c), vec![4, 1, 2, 3, 8, 5, 6, 7]);
}

#[test]
fn badge_on_a_small_icon() {
    // 22 px wide: radius 4, centre (17, 5)
    let data = vec![0u8; 4 * 22 * 22];
    let out = badge_from_rgba(22, 22, &data, 3).unwrap();
    assert_eq!(out.len(), 4 * 22 * 22);
    let px = |x: usize, y: usize| {
        let i = 4 * (y * 22 + x);
        (out[i], out[i + 1], out[i + 2], out[i + 3])
    };
    // ARGB order: alpha first
    assert_eq!(px(17, 1), (255, 227, 57, 53)); // top of the disc
    assert_eq!(px(13, 5), (255, 227, 57, 53)); // left end of the disc
    assert_eq!(px(12, 5), (0, 0, 0, 0)); // just outside
    assert_eq!(px(16, 3), (255, 255, 255, 255)); // top-left ink of "3"
    assert_eq!(px(16, 4), (255, 227, 57, 53)); // "3" row 2: 001
    assert_eq!(px(0, 0), (0, 0, 0, 0));
}

#[test]
fn badge_refuses_a_wrong_buffer() {
    assert!(badge_from_rgba(22, 22, &vec![0u8; 10], 1).is_none());
}

#[test]
fn badge_icon_refuses_data_that_is_no_png() {
    assert!(badge_icon(b"not a png", 2).is_none());
}

#[test]
fn badge_icon_decodes_a_png() {
    // a 1x1 opaque black PNG
    let png: [u8; 70] = [
        0x89, 0x50, 0x4E, 0x47, 0x0D, 0x0A, 0x1A, 0x0A, 0x00, 0x00, 0x00, 0x0D, 0x49, 0x48, 0x44,
        0x52, 0x00, 0x00, 0x00, 0x01, 0x00, 0x00, 0x00, 0x01, 0x08, 0x06, 0x00, 0x00, 0x00, 0x1F,
        0x15, 0xC4, 0x89, 0x00, 0x00, 0x00, 0x0D, 0x49, 0x44, 0x41, 0x54, 0x78, 0x9C, 0x63, 0x60,
        0x60, 0x60, 0xF8, 0x0F, 0x00, 0x01, 0x04, 0x01, 0x00, 0x5F, 0xE5, 0xC3, 0x4B, 0x00, 0x00,
        0x00, 0x00, 0x49, 0x45, 0x4E, 0x44, 0xAE, 0x42, 0x60, 0x82,
    ];
    let (w, h, bytes) = badge_icon(&png, 1).unwrap();
    assert_eq!((w, h), (1, 1));
    // the disc lies left of and below the single pixel: only the reorder shows
    assert_eq!(bytes, vec![255, 0, 0, 0]);
}
