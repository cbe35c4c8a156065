use afire::path::{Path, PathPart};

fn pairs(v: &[(&str, &str)]) -> Option<Vec<(String, String)>> {
    Some(v.iter().map(|(a, b)| (a.to_string(), b.to_string())).collect())
}

#[test]
fn pattern_segments() {
    let path = Path::new("/greet/{name}/*");
    assert_eq!(path.raw, "/greet/{name}/*");
    assert_eq!(
        path.parts,
        vec![
            PathPart::Normal("".to_owned()),
            PathPart::Normal("greet".to_owned()),
            PathPart::Param("name".to_owned()),
            PathPart::Any,
        ]
    );
    assert_eq!(Path::new("{}").parts, vec![PathPart::Param("".to_owned())]);
    assert_eq!(Path::new("{").parts, vec![PathPart::Normal("{".to_owned())]);
    assert_eq!(Path::new("**").parts, vec![PathPart::Normal("**".to_owned())]);
}

#[test]
fn named_parameter_is_bound() {
    let path = Path::new("/greet/{name}");
    assert_eq!(path.match_path("/greet/John"), pairs(&[("name", "John")]));
}

#[test]
fn missing_segment_is_no_match() {
    let path = Path::new("/greet/{name}");
    assert_eq!(path.match_path("/greet"), None);
    assert_eq!(path.match_path("/greet/"), None);
    assert_eq!(path.match_path("/greet/John/x"), None);
}

#[test]
fn literal_segments_must_be_equal() {
    let path = Path::new("/a/b");
    assert_eq!(path.match_path("/a/b"), pairs(&[]));
    assert_eq!(path.match_path("/a/B"), None);
    assert_eq!(path.match_path("/a"), None);
    assert_eq!(path.match_path("/a/b/"), None);
    assert_eq!(path.match_path("a/b"), None);
}

#[test]
fn several_parameters_in_order() {
    let path = Path::new("/{a}/x/{b}");
    assert_eq!(path.match_path("/1/x/2"), pairs(&[("a", "1"), ("b", "2")]));
    assert_eq!(path.match_path("/1/y/2"), None);
}

#[test]
fn wildcard_takes_the_rest() {
    let path = Path::new("/files/*");
    assert_eq!(path.match_path("/files/a"), pairs(&[]));
    assert_eq!(path.match_path("/files/a/b/c.txt"), pairs(&[]));
    assert_eq!(path.match_path("/files/"), pairs(&[]));
    assert_eq!(path.match_path("/files"), None);
    assert_eq!(path.match_path("/other/a"), None);
    let with_param = Path::new("/{user}/*");
    assert_eq!(with_param.match_path("/ann/docs/1"), pairs(&[("user", "ann")]));
    assert_eq!(Path::new("*").match_path("/anything/at/all"), pairs(&[]));
}
