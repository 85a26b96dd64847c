use sound_registry::listing::bracket;

fn strings(ids: &[&str]) -> Vec<String> {
    ids.iter().map(|id| id.to_string()).collect()
}

#[test]
fn no_ids_give_empty_brackets() {
    assert_eq!(bracket(&Vec::new()), "[]");
}

#[test]
fn one_id_has_no_comma() {
    assert_eq!(bracket(&strings(&["s1"])), "[s1]");
}

#[test]
fn several_ids_are_comma_joined() {
    assert_eq!(bracket(&strings(&["s1", "s2", "s3"])), "[s1,s2,s3]");
}

#[test]
fn ids_are_written_as_they_are() {
    assert_eq!(bracket(&strings(&["", ""])), "[,]");
    assert_eq!(bracket(&strings(&[""])), "[]");
    assert_eq!(bracket(&strings(&["a,b", "[c]", " d "])), "[a,b,[c], d ]");
    assert_eq!(bracket(&strings(&["höhe", "音"])), "[höhe,音]");
}
