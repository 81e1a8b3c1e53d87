use fractalgen::point::{coordinate_spans, Point, Span};

/// The two pieces that the standard library's trimming and splitting find.
fn pieces_by_std(text: &str) -> (&str, Option<&str>) {
    let coords: Vec<&str> = text.trim_matches(|c| c == '(' || c == ')').split(',').collect();
    (coords[0], coords.get(1).copied())
}

fn pieces(text: &str) -> (&str, Option<&str>) {
    let found = coordinate_spans(text);
    (&text[found.x.start..found.x.end], found.y.map(|y| &text[y.start..y.end]))
}

#[test]
fn new_sets_both_coordinates() {
    let p = Point::new(1.5, "up");
    assert_eq!(p.x, 1.5);
    assert_eq!(p.y, "up");
}

#[test]
fn from_a_pair() {
    let p: Point<i32, u8> = Point::from((-3, 7));
    assert_eq!((p.x, p.y), (-3, 7));
    let q: Point<f64, f64> = (0.25, -1.0).into();
    assert_eq!((q.x, q.y), (0.25, -1.0));
}

#[test]
fn map_x_leaves_y_alone() {
    let p = Point::new(2.0, 10).map_x(|x| x * 1.5);
    assert_eq!((p.x, p.y), (3.0, 10));
}

#[test]
fn map_y_leaves_x_alone() {
    let p = Point::new(2.0, 10).map_y(|y| y - 4);
    assert_eq!((p.x, p.y), (2.0, 6));
}

#[test]
fn transform_sees_both_coordinates() {
    let p = Point::new(3, 4).transform(|x, y| (x + y, x * y));
    assert_eq!((p.x, p.y), (7, 12));
    let swapped = Point::new(1.0, 2.0).transform(|x, y| (y, x));
    assert_eq!((swapped.x, swapped.y), (2.0, 1.0));
}

#[test]
fn point_is_copied() {
    let p = Point::new(1u8, 2u8);
    let q = p;
    assert_eq!((p.x, p.y), (q.x, q.y));
    assert_eq!(format!("{:?}", p), "Point { x: 1, y: 2 }");
}

#[test]
fn spans_of_a_plain_pair() {
    let found = coordinate_spans("0,0");
    assert_eq!(found.x, Span { start: 0, end: 1 });
    assert_eq!(found.y, Some(Span { start: 2, end: 3 }));
    assert_eq!(pieces("-0.8,0.156"), ("-0.8", Some("0.156")));
}

#[test]
fn spans_inside_brackets() {
    let found = coordinate_spans("(1.5,-2)");
    assert_eq!(found.x, Span { start: 1, end: 4 });
    assert_eq!(found.y, Some(Span { start: 5, end: 7 }));
    assert_eq!(pieces("((1,2))"), ("1", Some("2")));
    assert_eq!(pieces(")(1,2"), ("1", Some("2")));
    assert_eq!(pieces("1,2)))"), ("1", Some("2")));
}

#[test]
fn spans_keep_inner_brackets_and_spaces() {
    assert_eq!(pieces("(1(2,3)4)"), ("1(2", Some("3)4")));
    assert_eq!(pieces("( 1 , 2 )"), (" 1 ", Some(" 2 ")));
}

#[test]
fn spans_ignore_further_pieces() {
    assert_eq!(pieces("1,2,3"), ("1", Some("2")));
    assert_eq!(pieces("(1,,3)"), ("1", Some("")));
    assert_eq!(pieces(","), ("", Some("")));
    assert_eq!(pieces("(,)"), ("", Some("")));
    assert_eq!(pieces("1,"), ("1", Some("")));
}

#[test]
fn text_without_a_comma_has_no_second_coordinate() {
    assert_eq!(pieces(""), ("", None));
    assert_eq!(pieces("12"), ("12", None));
    assert_eq!(pieces("()"), ("", None));
    assert_eq!(pieces("((("), ("", None));
    assert_eq!(pieces("(1.5)"), ("1.5", None));
    assert_eq!(coordinate_spans("(1.5)").x, Span { start: 1, end: 4 });
    assert_eq!(coordinate_spans("(((").x, Span { start: 3, end: 3 });
}

#[test]
fn spans_agree_with_the_standard_library() {
    let fixed = ["", "(", ")", ",", "(,", ",)", "(1,2)", "\u{e9},\u{fc}", "(\u{20ac}1,2\u{20ac})", "a,b,c,d"];
    for text in fixed {
        assert_eq!(pieces(text), pieces_by_std(text), "text {:?}", text);
    }
    let alphabet: Vec<char> = "(),1.-e \u{e9}".chars().collect();
    let mut seed: u64 = 0x9e37_79b9_7f4a_7c15;
    for _ in 0..20000 {
        let mut text = String::new();
        seed = seed.wrapping_mul(6364136223846793005).wrapping_add(1442695040888963407);
        let len = (seed >> 60) as usize % 10;
        for _ in 0..len {
            seed = seed.wrapping_mul(6364136223846793005).wrapping_add(1442695040888963407);
            text.push(alphabet[(seed >> 33) as usize % alphabet.len()]);
        }
        assert_eq!(pieces(&text), pieces_by_std(&text), "text {:?}", text);
    }
}
