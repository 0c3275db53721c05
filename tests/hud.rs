use mandel_view::hud::text_layout;

#[test]
fn label_goes_right_of_anchor() {
    assert_eq!(text_layout(100, 100, 50, 24, 800, 600), ((114, 102), (112, 100)));
}

#[test]
fn label_flips_left_near_right_edge() {
    // 750 + 40 + 12 >= 800
    assert_eq!(text_layout(750, 100, 40, 24, 800, 600), ((700, 102), (698, 100)));
}

#[test]
fn label_moves_up_near_bottom_edge() {
    assert_eq!(text_layout(10, 590, 40, 24, 800, 600), ((24, 568), (22, 566)));
}
