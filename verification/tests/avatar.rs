use base64::Engine;
use gitclub::avatar::{avatar_svg_text, generate_avatar_data_url, generate_avatar_url};

/// The identicon as the registration endpoint has always drawn it.
fn reference_svg(username: &str, user_id: i64) -> String {
    let mut seed = user_id as u32;
    let mut random = || {
        seed = seed.wrapping_mul(1103515245).wrapping_add(12345);
        (seed / 65536) % 2
    };
    let mut grid = [[false; 5]; 5];
    for row in 0..5 {
        for col in 0..3 {
            grid[row][col] = random() == 1;
            grid[row][4 - col] = grid[row][col];
        }
    }
    let hash = username.bytes().fold(0u32, |acc, b| acc.wrapping_mul(31).wrapping_add(b as u32));
    let hue = (hash % 360) as f32;
    let saturation = 65.0;
    let lightness = 50.0;
    let cell_size = 20;
    let svg_size = cell_size * 5;
    let mut svg = format!(
        r#"<svg xmlns="http://www.w3.org/2000/svg" width="{}" height="{}" viewBox="0 0 {} {}">"#,
        svg_size, svg_size, svg_size, svg_size
    );
    svg.push_str(&format!(
        r#"<rect width="{}" height="{}" fill="hsl({}, {}%, {}%)"/>"#,
        svg_size,
        svg_size,
        hue,
        saturation,
        lightness + 35.0
    ));
    for (row_idx, row) in grid.iter().enumerate() {
        for (col_idx, &cell) in row.iter().enumerate() {
            if cell {
                let x = col_idx * cell_size;
                let y = row_idx * cell_size;
                svg.push_str(&format!(
                    r#"<rect x="{}" y="{}" width="{}" height="{}" fill="hsl({}, {}%, {})"/>"#,
                    x, y, cell_size, cell_size, hue, saturation, lightness
                ));
            }
        }
    }
    svg.push_str("</svg>");
    svg
}

#[test]
fn avatar_svg_matches_drawing() {
    let names = ["", "alice", "bob", "root", "用户", "a-very-long-user-name-with-dashes", "Z"];
    let ids = [0i64, 1, 2, 42, 12345, -1, i64::MAX, i64::MIN, 4294967296];
    for n in names {
        for id in ids {
            assert_eq!(avatar_svg_text(n, id), reference_svg(n, id), "user {:?} id {}", n, id);
        }
    }
}

#[test]
fn avatar_url_is_base64_data_url() {
    for (n, id) in [("alice", 1i64), ("bob", 7), ("", 0), ("用户", 99)] {
        let url = generate_avatar_data_url(n, id);
        let expected = format!(
            "data:image/svg+xml;base64,{}",
            base64::engine::general_purpose::STANDARD.encode(reference_svg(n, id).as_bytes())
        );
        assert_eq!(url, expected);
        assert_eq!(generate_avatar_url(n, id), url);
    }
}

#[test]
fn avatar_depends_on_name_and_id() {
    assert_eq!(generate_avatar_url("alice", 3), generate_avatar_url("alice", 3));
    assert_ne!(generate_avatar_url("alice", 3), generate_avatar_url("alicf", 3));
    assert!(generate_avatar_url("carol", 5).starts_with("data:image/svg+xml;base64,"));
}
