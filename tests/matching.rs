use eyes::captures::Captures;

fn captures_of(input: &str, template: &str) -> Option<Vec<String>> {
    Captures::new(input, template).map(|c| c.to_inner().iter().map(|s| s.to_string()).collect())
}

fn strings(v: &[&str]) -> Option<Vec<String>> {
    Some(v.iter().map(|s| s.to_string()).collect())
}

#[test]
fn simple_test() {
    // Test where the patterns in the template are all different
    let input = "#lol @ 338,7643: 20.2x24.5";
    let template = "#{} @ {},{}: {}x{}";

    println!("input: '{}'", input);
    println!("pattern: '{}'", template);

    let c = Captures::new(input, template).unwrap();
    let mut iter = c.as_inner().iter();
    let id = iter.next().unwrap().parse::<String>().unwrap();
    let x = iter.next().unwrap().parse::<isize>().unwrap();
    let y = iter.next().unwrap().parse::<isize>().unwrap();
    let w = iter.next().unwrap().parse::<f64>().unwrap();
    let h = iter.next().unwrap().parse::<f64>().unwrap();

    println!("id: {:?}", id);
    println!("x: {:?}", x);
    println!("y: {:?}", y);
    println!("w: {:?}", w);
    println!("h: {:?}", h);

    assert_eq!((id.as_str(), x, y, w, h), ("lol", 338, 7643, 20.2, 24.5));
}

#[test]
fn tries_to_expand_correctly() {
    let input = "turn off 660,55 through 986,197";
    let template = "{} {},{} through {},{}";

    println!("input: '{}'", input);
    println!("pattern: '{}'", template);

    let c = Captures::new(input, template).unwrap();
    let mut iter = c.as_inner().iter();
    let op = iter.next().unwrap().parse::<String>().unwrap();
    let x1 = iter.next().unwrap().parse::<usize>().unwrap();
    let y1 = iter.next().unwrap().parse::<usize>().unwrap();
    let x2 = iter.next().unwrap().parse::<usize>().unwrap();
    let y2 = iter.next().unwrap().parse::<usize>().unwrap();

    println!("op: {:?}", op);
    println!("p1: {:?}", (&x1, &y1));
    println!("p2: {:?}", (&x2, &y2));

    assert_eq!(
        (op.as_str(), x1, y1, x2, y2),
        ("turn off", 660, 55, 986, 197)
    );
}

#[test]
fn works_with_different_length_whitespace() {
    let input = "  775  785    361";
    let template = " {} {} {}";

    println!("input: '{}'", input);
    println!("pattern: '{}'", template);

    let c = Captures::new(input, template).unwrap();
    let mut iter = c.as_inner().iter();
    let a = iter.next().unwrap().parse::<usize>().unwrap();
    let b = iter.next().unwrap().parse::<usize>().unwrap();
    let c = iter.next().unwrap().parse::<usize>().unwrap();

    println!("a: {:?}", a);
    println!("b: {:?}", b);
    println!("c: {:?}", c);

    assert_eq!((a, b, c), (775, 785, 361));
}

#[test]
fn short_input() {
    let input = "1x1";
    let template = "{}x{}";

    println!("input: '{}'", input);
    println!("pattern: '{}'", template);

    let c = Captures::new(input, template).unwrap();
    let mut iter = c.as_inner().iter();
    let a = iter.next().unwrap().parse::<usize>().unwrap();
    let b = iter.next().unwrap().parse::<usize>().unwrap();

    println!("a: {:?}", a);
    println!("b: {:?}", b);

    assert_eq!((a, b), (1, 1))
}

#[test]
fn match_whole_input() {
    let input = "3240955";
    let template = "{}";

    println!("input: '{}'", input);
    println!("pattern: '{}'", template);

    let c = Captures::new(input, template).unwrap();
    let a = c.as_inner()[0].parse::<usize>().unwrap();

    println!("a: {:?}", a);

    assert_eq!(a, 3240955)
}

#[test]
fn captures_are_exact_texts() {
    assert_eq!(
        captures_of("#lol @ 338,7643: 20.2x24.5", "#{} @ {},{}: {}x{}"),
        strings(&["lol", "338", "7643", "20.2", "24.5"])
    );
    assert_eq!(
        captures_of("turn off 660,55 through 986,197", "{} {},{} through {},{}"),
        strings(&["turn off", "660", "55", "986", "197"])
    );
    assert_eq!(
        captures_of("  775  785    361", " {} {} {}"),
        strings(&["775", "785", "361"])
    );
    assert_eq!(captures_of("1x1", "{}x{}"), strings(&["1", "1"]));
    assert_eq!(captures_of("3240955", "{}"), strings(&["3240955"]));
}

#[test]
fn missing_literal_is_no_match() {
    assert_eq!(captures_of("#lol 338,7643: 20.2x24.5", "#{} @ {},{}: {}x{}"), None);
}

#[test]
fn one_capture_per_placeholder() {
    let c = Captures::new("a-b-c", "{}-{}-{}").unwrap();
    assert_eq!(c.to_inner().len(), 3);
    assert_eq!(c.to_inner(), *c.as_inner());
}

#[test]
fn same_pair_same_outcome() {
    let first = captures_of("turn on 0,0 through 999,999", "{} {},{} through {},{}");
    let second = captures_of("turn on 0,0 through 999,999", "{} {},{} through {},{}");
    assert_eq!(first, second);
    assert_eq!(first, strings(&["turn on", "0", "0", "999", "999"]));
}

#[test]
fn empty_template_and_input() {
    assert_eq!(captures_of("", ""), strings(&[]));
    assert_eq!(captures_of("x", ""), None);
    assert_eq!(captures_of("", "{}"), strings(&[""]));
}

#[test]
fn template_without_placeholders() {
    assert_eq!(captures_of("abc", "abc"), strings(&[]));
    assert_eq!(captures_of("abcd", "abc"), None);
    assert_eq!(captures_of("abcabc", "abc"), None);
}

#[test]
fn leading_literal_must_start_the_input() {
    assert_eq!(captures_of("x#y", "#{}"), None);
    assert_eq!(captures_of("#y", "#{}"), strings(&["y"]));
}

#[test]
fn trailing_literal_must_end_the_input() {
    assert_eq!(captures_of("1x2x", "{}x"), strings(&["1x2"]));
    assert_eq!(captures_of("1x2", "{}x"), None);
}

#[test]
fn last_literal_takes_its_rightmost_occurrence() {
    assert_eq!(captures_of("1x1x1", "{}x{}"), strings(&["1x1", "1"]));
}

#[test]
fn side_by_side_placeholders_share_a_capture() {
    assert_eq!(captures_of("ab", "{}{}"), strings(&["ab"]));
    assert_eq!(captures_of("a,b", "{}{},{}"), strings(&["a", "b"]));
}

#[test]
fn empty_capture_is_kept() {
    assert_eq!(captures_of("x1", "{}x{}"), strings(&["", "1"]));
    assert_eq!(captures_of("1x", "{}x{}"), strings(&["1", ""]));
}

#[test]
fn blank_literal_takes_any_whitespace_run() {
    assert_eq!(captures_of("a \t\n b", "{} {}"), strings(&["a", "b"]));
    assert_eq!(captures_of("a  b  c", "{} {}"), strings(&["a  b", "c"]));
}

#[test]
fn characters_beyond_ascii() {
    assert_eq!(captures_of("α→β", "{}→{}"), strings(&["α", "β"]));
}

#[test]
fn marks_decide_what_is_blank() {
    let input = "a--b";
    let template = "{}-{}";
    let input_marks: Vec<bool> = input.chars().map(|c| c == '-').collect();
    let template_marks: Vec<bool> = template.chars().map(|c| c == '-').collect();
    let c = Captures::with_marks(input, template, &input_marks, &template_marks).unwrap();
    assert_eq!(c.to_inner(), vec!["a", "b"]);

    let no_marks = vec![false; 4];
    let no_template_marks = vec![false; 5];
    let c = Captures::with_marks(input, template, &no_marks, &no_template_marks).unwrap();
    assert_eq!(c.to_inner(), vec!["a-", "b"]);
}

#[test]
fn needle_between_literals() {
    let captures = Captures::new("haystack|needle|haystack", "haystack|{}|haystack");
    assert_eq!(captures.unwrap().to_inner()[0], "needle");
}
