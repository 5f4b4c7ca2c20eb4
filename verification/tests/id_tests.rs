use frankmark::utils::generate_deterministic_id;

#[test]
fn id_is_deterministic_across_calls() {
    let a = generate_deterministic_id("getting-started");
    let b = generate_deterministic_id("getting-started");
    assert_eq!(a, b);
}

#[test]
fn id_is_ten_alphanumeric_characters() {
    for name in ["intro", "setup", "usage", "api", "faq", "", "a", "x/y"] {
        let id = generate_deterministic_id(name);
        assert_eq!(id.chars().count(), 10);
        assert!(id.chars().all(|c| c.is_ascii_alphanumeric()));
    }
}

#[test]
fn realistic_fixture_has_no_collisions() {
    let names = ["intro", "setup", "usage", "api", "faq", "changelog", "license"];
    let ids: Vec<String> = names.iter().map(|n| generate_deterministic_id(n)).collect();
    for i in 0..ids.len() {
        for j in 0..ids.len() {
            if i != j {
                assert_ne!(ids[i], ids[j], "collision between {} and {}", names[i], names[j]);
            }
        }
    }
}
