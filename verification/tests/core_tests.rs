use tgforward::filter::{keyword_text_readable, KeywordFilter};
use tgforward::media_filter::MediaFilter;
use tgforward::model::{EntityType, MediaType, MediaView, TextEntity};
use tgforward::replace::{ReplacementRule, TextReplacer};

fn doc(name: Option<&str>, size: usize) -> MediaView {
    MediaView {
        media_type: MediaType::Document,
        size_bytes: size,
        file_name: name.map(|s| s.to_string()),
        mime_type: None,
        width: None,
        height: None,
        duration: None,
        media_id: Some(1),
        access_hash: 0,
        file_reference: Vec::new(),
        thumb_type: None,
        thumb_bytes: None,
        spoiler: false,
    }
}

fn replacer(rules: Vec<(&str, &str, &str)>) -> TextReplacer {
    let mut r = TextReplacer::new();
    r.set_rules(
        rules
            .into_iter()
            .map(|(t, p, s)| ReplacementRule::new(t.to_string(), p.to_string(), s.to_string()))
            .collect(),
    );
    r
}

#[test]
fn keywords_split_on_commas() {
    assert_eq!(KeywordFilter::parse_keywords(" a, b ,,c "), vec!["a", "b", "c"]);
    assert!(KeywordFilter::parse_keywords(" , ").is_empty());
}

#[test]
fn empty_filter_forwards_everything() {
    let f = KeywordFilter::new(false);
    assert_eq!(f.should_forward("anything"), (true, None));
}

#[test]
fn keyword_file_sections_and_prefixes() {
    let content = "# rules\n[whitelist]\nRust, verus\n[black]\nspam\nblacklist= ads\n";
    assert!(keyword_text_readable(content));
    let mut f = KeywordFilter::new(false);
    f.load_from_str(content);
    assert_eq!(f.should_forward("I like RUST"), (true, None));
    assert_eq!(f.should_forward("nothing here"), (false, Some("未匹配白名单".to_string())));
    assert_eq!(f.should_forward("rust spam"), (false, Some("匹配黑名单: spam".to_string())));
    f.clear();
    assert_eq!(f.should_forward("nothing here"), (true, None));
}

#[test]
fn whitelist_prefix_line_takes_keywords_after_equals() {
    let mut f = KeywordFilter::new(false);
    f.load_from_str("whitelist=cat\n");
    assert_eq!(f.should_forward("hat"), (false, Some("未匹配白名单".to_string())));
    assert_eq!(f.should_forward("my cat"), (true, None));
}

#[test]
fn case_sensitive_matching() {
    let mut f = KeywordFilter::new(true);
    f.load_from_str("[blacklist]\nSpam\n");
    assert_eq!(f.should_forward("spam"), (true, None));
    assert_eq!(f.should_forward("Spam!"), (false, Some("匹配黑名单: Spam".to_string())));
}

#[test]
fn media_filter_limits_size_and_documents() {
    let f = MediaFilter::new(100, vec!["pdf".to_string()], true);
    assert!(f.should_skip(&doc(Some("a.pdf"), 101)));
    assert!(!f.should_skip(&doc(Some("a.PDF"), 100)));
    assert!(f.should_skip(&doc(Some("a.zip"), 10)));
    assert!(f.should_skip(&doc(None, 10)));
    let no_docs = MediaFilter::new(0, Vec::new(), false);
    assert!(no_docs.should_skip(&doc(Some("a.pdf"), 10)));
    let mut photo = doc(None, 1 << 30);
    photo.media_type = MediaType::Photo;
    assert!(!no_docs.should_skip(&photo));
    let any_docs = MediaFilter::new(0, Vec::new(), true);
    assert!(!any_docs.should_skip(&doc(Some("x"), 10)));
}

#[test]
fn exact_replacement_moves_entities() {
    let r = replacer(vec![("exact", "foo", "barbaz")]);
    let es = vec![
        TextEntity { offset: 0, length: 2, entity_type: EntityType::Bold, data: None },
        TextEntity { offset: 7, length: 3, entity_type: EntityType::Italic, data: None },
        TextEntity { offset: 4, length: 1, entity_type: EntityType::Code, data: None },
    ];
    let (t, out) = r.process_with_entities("ab foo xyz", es);
    assert_eq!(t, "ab barbaz xyz");
    assert_eq!(out.len(), 2);
    assert_eq!((out[0].offset, out[0].length), (0, 2));
    assert_eq!((out[1].offset, out[1].length), (10, 3));
}

#[test]
fn exact_replacement_repeats_until_gone() {
    let r = replacer(vec![("exact", "aa", "a")]);
    let (t, _) = r.process_with_entities("aaaa", Vec::new());
    assert_eq!(t, "a");
    let r = replacer(vec![("exact", "a", "aa")]);
    let (t, _) = r.process_with_entities("ba", Vec::new());
    assert_eq!(t, "baa");
}

#[test]
fn regex_replacement_fills_groups() {
    let r = replacer(vec![("regex", r"(\d+)-(\d+)", "$2:$1")]);
    let (t, _) = r.process_with_entities("range 10-20 ok", Vec::new());
    assert_eq!(t, "range 20:10 ok");
}

#[test]
fn unusable_rules_are_dropped() {
    let r = replacer(vec![("regex", "(", "x"), ("exact", "", "y"), ("exact", "q", "Q")]);
    let (t, _) = r.process_with_entities("q(", Vec::new());
    assert_eq!(t, "Q(");
    let rule = ReplacementRule::new("exact".to_string(), "p".to_string(), "r".to_string());
    assert_eq!((rule.rule_type(), rule.pattern(), rule.replacement()), ("exact", "p", "r"));
}

#[test]
fn checked_keyword_loading_and_verdicts_on_normalized_text() {
    let mut f = KeywordFilter::new(false);
    assert!(f.load_checked("[blacklist]\nSpam\n"));
    assert_eq!(f.forward_verdict("no spam here"), (false, Some("匹配黑名单: spam".to_string())));
    assert_eq!(f.forward_verdict("No Spam"), (true, None));
    assert_eq!(f.should_forward("No Spam"), (false, Some("匹配黑名单: spam".to_string())));
}
