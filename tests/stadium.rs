use beautiful_mermaid::rectangle::get_box_attachment_point;
use beautiful_mermaid::stadium::{
    get_attachment_point, get_dimensions, render, Canvas, Direction, DrawingCoord, LabelArea,
    ShapeDimensions, ShapeRenderOptions,
};

fn rows(canvas: &Canvas) -> Vec<String> {
    if canvas.is_empty() || canvas[0].is_empty() {
        return Vec::new();
    }
    let width = canvas.len();
    let height = canvas[0].len();
    (0..height)
        .map(|y| (0..width).map(|x| canvas[x][y]).collect::<String>())
        .collect()
}

#[test]
fn ascii_single_line_dimensions_and_render() {
    let options = ShapeRenderOptions {
        use_ascii: true,
        padding: 0,
    };
    let dimensions = get_dimensions("A", options);
    assert_eq!(dimensions.width, 5);
    assert_eq!(dimensions.height, 3);
    assert_eq!(dimensions.grid_columns, [2, 1, 2]);
    assert_eq!(dimensions.grid_rows, [1, 1, 1]);

    let canvas = render("A", &dimensions, options);
    assert_eq!(rows(&canvas), vec!["     ", "( A )", "     "]);
}

#[test]
fn unicode_single_line_uses_code_point_width() {
    let options = ShapeRenderOptions {
        use_ascii: false,
        padding: 0,
    };
    let dimensions = get_dimensions("测试", options);
    assert_eq!(dimensions.width, 6);
    assert_eq!(dimensions.height, 3);

    let canvas = render("测试", &dimensions, options);
    assert_eq!(rows(&canvas), vec!["      ", "( 测试 )", "      "]);
}

#[test]
fn ascii_multi_line_vertical_distribution() {
    let options = ShapeRenderOptions {
        use_ascii: true,
        padding: 0,
    };
    let dimensions = get_dimensions("A\nB", options);
    assert_eq!(dimensions.width, 5);
    assert_eq!(dimensions.height, 4);
    assert_eq!(dimensions.grid_rows, [1, 2, 1]);

    let canvas = render("A\nB", &dimensions, options);
    assert_eq!(rows(&canvas), vec!["(---)", "( A )", "( B )", "(---)"]);
}

#[test]
fn empty_label_renders_border_only() {
    let options = ShapeRenderOptions {
        use_ascii: true,
        padding: 0,
    };
    let dimensions = get_dimensions("", options);
    assert_eq!(dimensions.width, 4);
    assert_eq!(dimensions.height, 3);

    let canvas = render("", &dimensions, options);
    assert_eq!(rows(&canvas), vec!["    ", "(  )", "    "]);
}

#[test]
fn odd_even_centering_follows_floor_rule() {
    let options = ShapeRenderOptions {
        use_ascii: true,
        padding: 0,
    };

    let dims_even = get_dimensions("AB", options);
    assert_eq!(dims_even.width, 6);
    let even_rows = rows(&render("AB", &dims_even, options));
    assert_eq!(even_rows[1], "( AB )");

    let dims_odd = get_dimensions("ABC", options);
    assert_eq!(dims_odd.width, 7);
    let odd_rows = rows(&render("ABC", &dims_odd, options));
    assert_eq!(odd_rows[1], "( ABC )");
}

#[test]
fn non_bmp_emoji_counts_as_one_code_point() {
    let options = ShapeRenderOptions {
        use_ascii: true,
        padding: 0,
    };
    let dimensions = get_dimensions("😀", options);
    assert_eq!(dimensions.width, 5);

    let canvas = render("😀", &dimensions, options);
    assert_eq!(rows(&canvas)[1], "( 😀 )");
}

#[test]
fn attachment_point_reuses_box_logic() {
    let options = ShapeRenderOptions {
        use_ascii: true,
        padding: 0,
    };
    let dimensions = get_dimensions("AB", options);
    let base = DrawingCoord { x: 10, y: 20 };

    assert_eq!(
        get_attachment_point(Direction::Up, &dimensions, base),
        DrawingCoord { x: 13, y: 20 }
    );
    assert_eq!(
        get_attachment_point(Direction::Right, &dimensions, base),
        DrawingCoord { x: 15, y: 21 }
    );
    assert_eq!(
        get_attachment_point(Direction::Middle, &dimensions, base),
        DrawingCoord { x: 13, y: 21 }
    );
}

#[test]
fn attachment_points_on_a_four_row_box() {
    let options = ShapeRenderOptions {
        use_ascii: true,
        padding: 0,
    };
    let dimensions = get_dimensions("A\nB", options);
    assert_eq!((dimensions.width, dimensions.height), (5, 4));
    let base = DrawingCoord { x: 10, y: 20 };
    let at = |d| get_box_attachment_point(d, &dimensions, base);
    assert_eq!(at(Direction::Up), DrawingCoord { x: 12, y: 20 });
    assert_eq!(at(Direction::Down), DrawingCoord { x: 12, y: 23 });
    assert_eq!(at(Direction::Left), DrawingCoord { x: 10, y: 22 });
    assert_eq!(at(Direction::Right), DrawingCoord { x: 14, y: 22 });
    assert_eq!(at(Direction::UpperLeft), DrawingCoord { x: 10, y: 20 });
    assert_eq!(at(Direction::UpperRight), DrawingCoord { x: 14, y: 20 });
    assert_eq!(at(Direction::LowerLeft), DrawingCoord { x: 10, y: 23 });
    assert_eq!(at(Direction::LowerRight), DrawingCoord { x: 14, y: 23 });
    assert_eq!(at(Direction::Middle), DrawingCoord { x: 12, y: 22 });
}

#[test]
fn opposite_directions_share_an_axis() {
    let options = ShapeRenderOptions {
        use_ascii: false,
        padding: 2,
    };
    let dimensions = get_dimensions("xyz\nw", options);
    let base = DrawingCoord { x: -3, y: 7 };
    let up = get_attachment_point(Direction::Up, &dimensions, base);
    let down = get_attachment_point(Direction::Down, &dimensions, base);
    let left = get_attachment_point(Direction::Left, &dimensions, base);
    let right = get_attachment_point(Direction::Right, &dimensions, base);
    assert_eq!(up.x, down.x);
    assert_ne!(up.y, down.y);
    assert_eq!(left.y, right.y);
    assert_ne!(left.x, right.x);
}

#[test]
fn rounded_border_on_a_taller_box() {
    let options = ShapeRenderOptions {
        use_ascii: false,
        padding: 0,
    };
    let dimensions = get_dimensions("A\nB", options);
    let canvas = render("A\nB", &dimensions, options);
    assert_eq!(rows(&canvas), vec!["╭───╮", "│ A │", "│ B │", "╰───╯"]);
}

#[test]
fn padding_grows_the_interior() {
    let options = ShapeRenderOptions {
        use_ascii: true,
        padding: 1,
    };
    let dimensions = get_dimensions("A", options);
    assert_eq!(dimensions.width, 7);
    assert_eq!(dimensions.height, 5);
    assert_eq!(dimensions.grid_columns, [2, 3, 2]);
    assert_eq!(dimensions.grid_rows, [1, 3, 1]);
    assert_eq!(
        dimensions.label_area,
        LabelArea {
            x: 3,
            y: 2,
            width: 1,
            height: 1
        }
    );
    let canvas = render("A", &dimensions, options);
    assert_eq!(
        rows(&canvas),
        vec!["(-----)", "(     )", "(  A  )", "(     )", "(-----)"]
    );
}

#[test]
fn canvas_size_matches_dimensions() {
    for (label, padding) in [("", 0), ("a\nbb\nccc", 1), ("测试\n😀", 3)] {
        for ascii in [true, false] {
            let options = ShapeRenderOptions {
                use_ascii: ascii,
                padding,
            };
            let dimensions = get_dimensions(label, options);
            let canvas = render(label, &dimensions, options);
            assert_eq!(canvas.len(), dimensions.width);
            for column in &canvas {
                assert_eq!(column.len(), dimensions.height);
            }
        }
    }
}

#[test]
fn shorter_lines_center_with_floor() {
    let options = ShapeRenderOptions {
        use_ascii: true,
        padding: 0,
    };
    let dimensions = get_dimensions("abcd\nx\nyz", options);
    let canvas = render("abcd\nx\nyz", &dimensions, options);
    assert_eq!(canvas[0].len(), 5);
    let r = rows(&canvas);
    assert_eq!(r[0], "(------)");
    assert_eq!(r[1], "( abcd )");
    assert_eq!(r[2], "(  x   )");
    assert_eq!(r[3], "(  yz  )");
    assert_eq!(r[4], "(------)");
}

fn hand_made(width: usize, height: usize, inner_width: usize, inner_height: usize) -> ShapeDimensions {
    ShapeDimensions {
        width,
        height,
        label_area: LabelArea {
            x: 2,
            y: 1,
            width: inner_width,
            height: inner_height,
        },
        grid_columns: [2, inner_width, 2],
        grid_rows: [1, inner_height, 1],
    }
}

#[test]
fn label_wider_than_canvas_is_clipped() {
    let options = ShapeRenderOptions {
        use_ascii: true,
        padding: 0,
    };
    let canvas = render("ABCDEF", &hand_made(4, 4, 6, 1), options);
    assert_eq!(rows(&canvas), vec!["(--)", "( A)", "(  )", "(--)"]);
}

#[test]
fn label_below_canvas_is_clipped() {
    let options = ShapeRenderOptions {
        use_ascii: true,
        padding: 0,
    };
    let canvas = render("A\nB\nC", &hand_made(5, 3, 1, 5), options);
    assert_eq!(rows(&canvas), vec!["     ", "(   )", "  A  "]);
}

#[test]
fn small_rounded_box_keeps_last_glyph() {
    let options = ShapeRenderOptions {
        use_ascii: false,
        padding: 0,
    };
    let canvas = render("", &hand_made(4, 2, 0, 1), options);
    assert_eq!(rows(&canvas), vec!["╭──╮", "╰──╯"]);
    let canvas = render("", &hand_made(3, 1, 0, 1), options);
    assert_eq!(rows(&canvas), vec!["╰─╯"]);
    let canvas = render("", &hand_made(1, 3, 0, 1), options);
    assert_eq!(rows(&canvas), vec![" ", ")", " "]);
}
