//! Classification scenarios: square refinement, pattern buckets, the
//! star-versus-circle fallback, and the double-circle test.

use grimoire::classify::{
    classify_contour, detect_internal_pattern, is_square, is_star_shape, pattern_for_ratio,
    Pattern, Symbol, SymbolType,
};
use grimoire::simplify::approx_poly_dp;
use grimoire::geometry::contour_perimeter_mpx;
use grimoire::raster::Raster;

const SQ_WALK: &[(i64, i64)] = &[(100, 100), (101, 100), (102, 100), (103, 100), (104, 100), (105, 100), (106, 100), (107, 100), (108, 100), (109, 100), (110, 100), (111, 100), (112, 100), (113, 100), (114, 100), (115, 100), (116, 100), (117, 100), (118, 100), (119, 100), (120, 100), (121, 100), (122, 100), (123, 100), (124, 100), (125, 100), (126, 100), (127, 100), (128, 100), (129, 100), (130, 100), (131, 100), (132, 100), (133, 100), (134, 100), (135, 100), (136, 100), (137, 100), (138, 100), (139, 100), (140, 100), (140, 101), (140, 102), (140, 103), (140, 104), (140, 105), (140, 106), (140, 107), (140, 108), (140, 109), (140, 110), (140, 111), (140, 112), (140, 113), (140, 114), (140, 115), (140, 116), (140, 117), (140, 118), (140, 119), (140, 120), (140, 121), (140, 122), (140, 123), (140, 124), (140, 125), (140, 126), (140, 127), (140, 128), (140, 129), (140, 130), (140, 131), (140, 132), (140, 133), (140, 134), (140, 135), (140, 136), (140, 137), (140, 138), (140, 139), (140, 140), (139, 140), (138, 140), (137, 140), (136, 140), (135, 140), (134, 140), (133, 140), (132, 140), (131, 140), (130, 140), (129, 140), (128, 140), (127, 140), (126, 140), (125, 140), (124, 140), (123, 140), (122, 140), (121, 140), (120, 140), (119, 140), (118, 140), (117, 140), (116, 140), (115, 140), (114, 140), (113, 140), (112, 140), (111, 140), (110, 140), (109, 140), (108, 140), (107, 140), (106, 140), (105, 140), (104, 140), (103, 140), (102, 140), (101, 140), (100, 140), (100, 139), (100, 138), (100, 137), (100, 136), (100, 135), (100, 134), (100, 133), (100, 132), (100, 131), (100, 130), (100, 129), (100, 128), (100, 127), (100, 126), (100, 125), (100, 124), (100, 123), (100, 122), (100, 121), (100, 120), (100, 119), (100, 118), (100, 117), (100, 116), (100, 115), (100, 114), (100, 113), (100, 112), (100, 111), (100, 110), (100, 109), (100, 108), (100, 107), (100, 106), (100, 105), (100, 104), (100, 103), (100, 102), (100, 101)];
const QUAD_WALK: &[(i64, i64)] = &[(100, 100), (101, 100), (102, 100), (103, 100), (104, 100), (105, 100), (106, 100), (107, 100), (108, 100), (109, 100), (110, 100), (111, 100), (112, 100), (113, 100), (114, 100), (115, 100), (116, 100), (117, 100), (118, 100), (119, 100), (120, 100), (121, 100), (122, 100), (123, 100), (124, 100), (125, 100), (126, 100), (127, 100), (128, 100), (129, 100), (130, 100), (131, 100), (132, 100), (133, 100), (134, 100), (135, 100), (136, 100), (137, 100), (138, 100), (139, 100), (140, 100), (141, 101), (142, 102), (143, 103), (144, 104), (145, 105), (146, 106), (147, 107), (148, 108), (149, 109), (150, 110), (151, 111), (152, 112), (153, 113), (154, 114), (155, 115), (156, 116), (157, 117), (158, 118), (159, 119), (160, 120), (161, 121), (162, 122), (163, 123), (164, 124), (165, 125), (166, 126), (167, 127), (168, 128), (169, 129), (170, 130), (171, 131), (172, 132), (173, 133), (174, 134), (175, 135), (176, 136), (177, 137), (178, 138), (179, 139), (180, 140), (179, 140), (178, 140), (177, 140), (176, 140), (175, 140), (174, 140), (173, 140), (172, 140), (171, 140), (170, 140), (169, 140), (168, 140), (167, 140), (166, 140), (165, 140), (164, 140), (163, 140), (162, 140), (161, 140), (160, 140), (159, 140), (158, 140), (157, 140), (156, 140), (155, 140), (154, 140), (153, 140), (152, 140), (151, 140), (150, 140), (149, 140), (148, 140), (147, 140), (146, 140), (145, 140), (144, 140), (143, 140), (142, 140), (141, 140), (140, 140), (139, 140), (138, 140), (137, 140), (136, 140), (135, 140), (134, 140), (133, 140), (132, 140), (131, 140), (130, 140), (129, 140), (128, 140), (127, 140), (126, 140), (125, 140), (124, 140), (123, 140), (122, 140), (121, 140), (120, 140), (119, 140), (118, 140), (117, 140), (116, 140), (115, 140), (114, 140), (113, 140), (112, 140), (111, 140), (110, 140), (109, 140), (108, 140), (107, 140), (106, 140), (105, 140), (104, 140), (103, 140), (102, 140), (101, 140), (100, 140), (100, 139), (100, 138), (100, 137), (100, 136), (100, 135), (100, 134), (100, 133), (100, 132), (100, 131), (100, 130), (100, 129), (100, 128), (100, 127), (100, 126), (100, 125), (100, 124), (100, 123), (100, 122), (100, 121), (100, 120), (100, 119), (100, 118), (100, 117), (100, 116), (100, 115), (100, 114), (100, 113), (100, 112), (100, 111), (100, 110), (100, 109), (100, 108), (100, 107), (100, 106), (100, 105), (100, 104), (100, 103), (100, 102), (100, 101)];
const CIRCLE_WALK: &[(i64, i64)] = &[(250, 150), (250, 152), (250, 153), (250, 155), (250, 157), (250, 159), (249, 160), (249, 162), (249, 164), (249, 166), (248, 167), (248, 169), (248, 171), (247, 172), (247, 174), (247, 176), (246, 178), (246, 179), (245, 181), (245, 183), (244, 184), (243, 186), (243, 187), (242, 189), (241, 191), (241, 192), (240, 194), (239, 195), (238, 197), (237, 198), (237, 200), (236, 202), (235, 203), (234, 204), (233, 206), (232, 207), (231, 209), (230, 210), (229, 212), (228, 213), (227, 214), (225, 216), (224, 217), (223, 218), (222, 219), (221, 221), (219, 222), (218, 223), (217, 224), (216, 225), (214, 227), (213, 228), (212, 229), (210, 230), (209, 231), (207, 232), (206, 233), (204, 234), (203, 235), (202, 236), (200, 237), (198, 237), (197, 238), (195, 239), (194, 240), (192, 241), (191, 241), (189, 242), (187, 243), (186, 243), (184, 244), (183, 245), (181, 245), (179, 246), (178, 246), (176, 247), (174, 247), (172, 247), (171, 248), (169, 248), (167, 248), (166, 249), (164, 249), (162, 249), (160, 249), (159, 250), (157, 250), (155, 250), (153, 250), (152, 250), (150, 250), (148, 250), (147, 250), (145, 250), (143, 250), (141, 250), (140, 249), (138, 249), (136, 249), (134, 249), (133, 248), (131, 248), (129, 248), (128, 247), (126, 247), (124, 247), (122, 246), (121, 246), (119, 245), (117, 245), (116, 244), (114, 243), (113, 243), (111, 242), (109, 241), (108, 241), (106, 240), (105, 239), (103, 238), (102, 237), (100, 237), (98, 236), (97, 235), (96, 234), (94, 233), (93, 232), (91, 231), (90, 230), (88, 229), (87, 228), (86, 227), (84, 225), (83, 224), (82, 223), (81, 222), (79, 221), (78, 219), (77, 218), (76, 217), (75, 216), (73, 214), (72, 213), (71, 212), (70, 210), (69, 209), (68, 207), (67, 206), (66, 204), (65, 203), (64, 202), (63, 200), (63, 198), (62, 197), (61, 195), (60, 194), (59, 192), (59, 191), (58, 189), (57, 187), (57, 186), (56, 184), (55, 183), (55, 181), (54, 179), (54, 178), (53, 176), (53, 174), (53, 172), (52, 171), (52, 169), (52, 167), (51, 166), (51, 164), (51, 162), (51, 160), (50, 159), (50, 157), (50, 155), (50, 153), (50, 152), (50, 150), (50, 148), (50, 147), (50, 145), (50, 143), (50, 141), (51, 140), (51, 138), (51, 136), (51, 134), (52, 133), (52, 131), (52, 129), (53, 128), (53, 126), (53, 124), (54, 122), (54, 121), (55, 119), (55, 117), (56, 116), (57, 114), (57, 113), (58, 111), (59, 109), (59, 108), (60, 106), (61, 105), (62, 103), (63, 102), (63, 100), (64, 98), (65, 97), (66, 96), (67, 94), (68, 93), (69, 91), (70, 90), (71, 88), (72, 87), (73, 86), (75, 84), (76, 83), (77, 82), (78, 81), (79, 79), (81, 78), (82, 77), (83, 76), (84, 75), (86, 73), (87, 72), (88, 71), (90, 70), (91, 69), (93, 68), (94, 67), (96, 66), (97, 65), (98, 64), (100, 63), (102, 63), (103, 62), (105, 61), (106, 60), (108, 59), (109, 59), (111, 58), (113, 57), (114, 57), (116, 56), (117, 55), (119, 55), (121, 54), (122, 54), (124, 53), (126, 53), (128, 53), (129, 52), (131, 52), (133, 52), (134, 51), (136, 51), (138, 51), (140, 51), (141, 50), (143, 50), (145, 50), (147, 50), (148, 50), (150, 50), (152, 50), (153, 50), (155, 50), (157, 50), (159, 50), (160, 51), (162, 51), (164, 51), (166, 51), (167, 52), (169, 52), (171, 52), (172, 53), (174, 53), (176, 53), (178, 54), (179, 54), (181, 55), (183, 55), (184, 56), (186, 57), (187, 57), (189, 58), (191, 59), (192, 59), (194, 60), (195, 61), (197, 62), (198, 63), (200, 63), (202, 64), (203, 65), (204, 66), (206, 67), (207, 68), (209, 69), (210, 70), (212, 71), (213, 72), (214, 73), (216, 75), (217, 76), (218, 77), (219, 78), (221, 79), (222, 81), (223, 82), (224, 83), (225, 84), (227, 86), (228, 87), (229, 88), (230, 90), (231, 91), (232, 93), (233, 94), (234, 96), (235, 97), (236, 98), (237, 100), (237, 102), (238, 103), (239, 105), (240, 106), (241, 108), (241, 109), (242, 111), (243, 113), (243, 114), (244, 116), (245, 117), (245, 119), (246, 121), (246, 122), (247, 124), (247, 126), (247, 128), (248, 129), (248, 131), (248, 133), (249, 134), (249, 136), (249, 138), (249, 140), (250, 141), (250, 143), (250, 145), (250, 147), (250, 148)];
const NONAGRAM: &[(i64, i64)] = &[(250, 150), (167, 248), (56, 184), (100, 63), (227, 86), (227, 214), (100, 237), (56, 116), (167, 52)];
const STAR10: &[(i64, i64)] = &[(250, 150), (190, 179), (181, 245), (135, 198), (69, 209), (100, 150), (69, 91), (135, 102), (181, 55), (190, 121)];

fn empty_mask(w: usize, h: usize) -> Raster {
    Raster::new(w, h, vec![0u8; w * h]).unwrap()
}

fn disk_mask(w: usize, h: usize, cx: i64, cy: i64, r: i64) -> Raster {
    let mut data = vec![0u8; w * h];
    for y in 0..h as i64 {
        for x in 0..w as i64 {
            if (x - cx) * (x - cx) + (y - cy) * (y - cy) <= r * r {
                data[(y as usize) * w + x as usize] = 255;
            }
        }
    }
    Raster::new(w, h, data).unwrap()
}

#[test]
fn exact_square_classifies_as_square() {
    let mask = empty_mask(300, 300);
    let s = classify_contour(100, &SQ_WALK.to_vec(), &mask).unwrap();
    assert_eq!(s.symbol_type, SymbolType::Square);
    assert_eq!(s.size, 40000);
    assert_eq!(s.confidence, 800);
    assert!(s.pattern.is_none());
}

#[test]
fn skewed_quadrilateral_is_rejected_not_reclassified() {
    let mask = empty_mask(300, 300);
    assert!(classify_contour(100, &QUAD_WALK.to_vec(), &mask).is_none());
}

#[test]
fn right_angle_test_accepts_axis_aligned_square() {
    let q: Vec<(i64, i64)> = vec![(0, 0), (40, 0), (40, 40), (0, 40)];
    assert!(is_square(&q));
}

#[test]
fn right_angle_test_rejects_forty_five_degree_corner() {
    let q: Vec<(i64, i64)> = vec![(0, 0), (40, 0), (80, 40), (0, 40)];
    assert!(!is_square(&q));
}

#[test]
fn pattern_buckets_at_reference_ratios() {
    assert_eq!(pattern_for_ratio(5, 100), Pattern::Empty);
    assert_eq!(pattern_for_ratio(15, 100), Pattern::Dot);
    assert_eq!(pattern_for_ratio(25, 100), Pattern::DoubleDot);
    assert_eq!(pattern_for_ratio(45, 100), Pattern::Lines);
    assert_eq!(pattern_for_ratio(65, 100), Pattern::Cross);
    assert_eq!(pattern_for_ratio(85, 100), Pattern::Filled);
}

#[test]
fn pattern_bucket_boundaries_are_half_open() {
    assert_eq!(pattern_for_ratio(9, 100), Pattern::Empty);
    assert_eq!(pattern_for_ratio(10, 100), Pattern::Dot);
    assert_eq!(pattern_for_ratio(20, 100), Pattern::DoubleDot);
    assert_eq!(pattern_for_ratio(30, 100), Pattern::Lines);
    assert_eq!(pattern_for_ratio(50, 100), Pattern::Cross);
    assert_eq!(pattern_for_ratio(70, 100), Pattern::Filled);
    assert_eq!(pattern_for_ratio(100, 100), Pattern::Filled);
}

#[test]
fn nonagram_with_uniform_radii_falls_back_to_circle() {
    let c = NONAGRAM.to_vec();
    let eps = contour_perimeter_mpx(&c) * 4 / 100;
    assert_eq!(approx_poly_dp(&c, eps).len(), 9);
    assert!(!is_star_shape(&c));
    let mask = empty_mask(300, 300);
    let s = classify_contour(100, &c, &mask).unwrap();
    assert_eq!(s.symbol_type, SymbolType::Circle);
    assert_eq!(s.size, 199950);
}

#[test]
fn alternating_radius_polygon_classifies_as_star() {
    let c = STAR10.to_vec();
    assert!(is_star_shape(&c));
    let mask = empty_mask(300, 300);
    let s = classify_contour(100, &c, &mask).unwrap();
    assert_eq!(s.symbol_type, SymbolType::Star);
}

#[test]
fn rasterized_circle_classifies_as_circle_on_empty_mask() {
    let mask = empty_mask(300, 300);
    let s = classify_contour(100, &CIRCLE_WALK.to_vec(), &mask).unwrap();
    assert_eq!(s.symbol_type, SymbolType::Circle);
    assert_eq!(s.size, 200022);
    assert_eq!(s.position, (150000, 150000));
}

#[test]
fn filled_interior_ring_makes_a_double_circle() {
    let mask = disk_mask(300, 300, 150, 150, 80);
    let s = classify_contour(100, &CIRCLE_WALK.to_vec(), &mask).unwrap();
    assert_eq!(s.symbol_type, SymbolType::DoubleCircle);
}

#[test]
fn pattern_sampling_outside_image_bounds_gives_none() {
    let mask = empty_mask(64, 64);
    let near_edge = Symbol {
        symbol_type: SymbolType::Square,
        position: (5000, 5000),
        size: 40000,
        confidence: 800,
        pattern: None,
    };
    assert!(detect_internal_pattern(&mask, &near_edge).is_none());
    let fits = Symbol {
        symbol_type: SymbolType::Square,
        position: (32000, 32000),
        size: 40000,
        confidence: 800,
        pattern: None,
    };
    assert_eq!(detect_internal_pattern(&mask, &fits), Some(Pattern::Empty));
}
