use shikane::search::{
    MultiSearch, Search, CompareMethod, FieldSet, FieldSetError, ParseSingleSearchError, SearchField, SearchKind,
    SearchPattern, SingleQuery, SingleSearch,
};

#[test]
fn single_search() {
    let ssearch = SingleSearch {
        fields: FieldSet::new(SearchField::Name),
        pattern: SearchPattern::Fulltext(String::from("DP-1")),
        method: CompareMethod::Exact,
    };
    let ssr = SingleQuery::new(&ssearch)
        .name("DP-1")
        .model("generic model")
        .vendor("generic vendor")
        .run();

    assert!(ssr.is_ok());
}

use SearchField::{Description as D, Model as M, Name as N, Serial as S, Vendor as V};

fn check_parse(s: &str, fields: &[SearchField], kind: SearchKind, pattern_len: usize) {
    let ssearch = SingleSearch::from_str(s);
    assert!(ssearch.is_ok());
    let ssearch = ssearch.unwrap();
    assert_eq!(ssearch.kind(), kind);
    assert_eq!(ssearch.fields.iter(), fields.to_vec());
    assert_eq!(ssearch.pattern.as_str().len(), pattern_len);
}

#[test]
fn parse_single_search_from_str_ok() {
    check_parse("=DP-1", &[D, N, V, M, S], SearchKind::Fulltext, 4);
    check_parse("=ab%cdef", &[D, N, V, M, S], SearchKind::Fulltext, 7);
    check_parse("mvsnd=DP-1", &[M, V, S, N, D], SearchKind::Fulltext, 4);
    check_parse("ms=DP-1", &[M, S], SearchKind::Fulltext, 4);
    check_parse("s=%/DP-1", &[S], SearchKind::Fulltext, 6);
    check_parse("s=/%DP-1", &[S], SearchKind::Fulltext, 6);
    check_parse("%display", &[D, N, V, M, S], SearchKind::Substring, 7);
    check_parse("d%display", &[D], SearchKind::Substring, 7);
    check_parse("m%=display", &[M], SearchKind::Substring, 8);
    check_parse("m%/display", &[M], SearchKind::Substring, 8);
    check_parse("m%=/display", &[M], SearchKind::Substring, 9);
    check_parse("/DP", &[D, N, V, M, S], SearchKind::Regex, 2);
    check_parse("mv/company", &[M, V], SearchKind::Regex, 7);
    check_parse("m/%=model", &[M], SearchKind::Regex, 7);
    check_parse("m/=%model", &[M], SearchKind::Regex, 7);
}

#[test]
fn parse_single_search_errors() {
    assert!(matches!(
        SingleSearch::from_str("nn=DP-1"),
        Err(ParseSingleSearchError::FieldSet(FieldSetError::AlreadyInside(SearchField::Name)))
    ));
    assert!(matches!(
        SingleSearch::from_str("DP-1"),
        Err(ParseSingleSearchError::MissingSearchKind)
    ));
    assert!(matches!(
        SingleSearch::from_str("dn"),
        Err(ParseSingleSearchError::MissingSearchKind)
    ));
    assert!(matches!(
        SingleSearch::from_str("/DP(-1"),
        Err(ParseSingleSearchError::Regex(_))
    ));
}

#[test]
fn single_search_text_round_trip() {
    for s in ["=DP-1", "mvsnd=DP-1", "ms%DP", "/^DP-[0-9]$", "dnvms=x", "%"] {
        let ss = SingleSearch::from_str(s).unwrap();
        assert_eq!(ss.to_string(), s);
    }
}

#[test]
fn field_set_rejects_sixth_and_duplicate() {
    let mut fs = FieldSet::empty();
    for f in [D, N, V, M, S] {
        assert_eq!(fs.try_insert(f), Ok(()));
    }
    assert_eq!(fs.len(), 5);
    assert_eq!(fs.try_insert(D), Err(FieldSetError::Full));
    let mut fs = FieldSet::new(N);
    assert_eq!(fs.try_insert(N), Err(FieldSetError::AlreadyInside(N)));
    assert_eq!(fs.iter(), vec![N]);
}

#[test]
fn field_set_weight_by_position() {
    let fs = FieldSet::try_from_fields(&vec![M, N]).unwrap();
    assert_eq!(fs.weight(M), Some(1));
    assert_eq!(fs.weight(N), Some(2));
    assert_eq!(fs.weight(S), None);
    let mut full = FieldSet::empty();
    full.fill_default();
    assert_eq!(full.weight(S), Some(16));
}

#[test]
fn pattern_weights() {
    assert_eq!(SearchPattern::Fulltext("DP-1".to_string()).matches("DP-1"), (true, 1_024_000));
    assert_eq!(SearchPattern::Fulltext("DP-1".to_string()).matches("DP-2"), (false, 0));
    assert_eq!(SearchPattern::Substring("DP".to_string()).matches("DP-1"), (true, 512_000));
    assert_eq!(SearchPattern::Substring("HDMI".to_string()).matches("DP-1"), (false, 0));
    let re = shikane::search::RegexPattern::new("^DP").unwrap();
    assert_eq!(SearchPattern::Regex(re).matches("DP-1"), (true, 1000));
}

#[test]
fn specificity_weights_field_position() {
    let ss = SingleSearch::from_str("nd=eDP-1").unwrap();
    let r = SingleQuery::new(&ss).name("eDP-1").description("eDP-1").run();
    assert!(r.is_ok());
    assert_eq!(r.specificity(), 1_024_000 * 16 + 1_024_000 * 8);
    let r = SingleQuery::new(&ss).name("eDP-1").description("other").run();
    assert!(!r.is_ok());
    assert_eq!(r.specificity(), 1_024_000 * 16);
    let any = SingleSearch::from_str("=eDP-1").unwrap();
    let r = SingleQuery::new(&any).name("eDP-1").run();
    assert!(r.is_ok());
    assert_eq!(r.specificity(), 1_024_000 * 16);
}

#[test]
fn multi_search_text_and_result() {
    let ms = MultiSearch::new(vec![
        SingleSearch::from_str("=ab").unwrap(),
        SingleSearch::from_str("m=cd").unwrap(),
    ]);
    let r = ms.run("", "cd", "ab", "", "");
    assert!(r.is_ok());
    assert_eq!(r.specificity(), 1_024_000 * 16 * 2);
    let s = Search::Multi(ms);
    assert_eq!(s.to_string(), "[=ab, m=cd]");
    let miss = s.run("", "xx", "ab", "", "");
    assert!(!miss.is_ok());
}
