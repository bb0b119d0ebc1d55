use sdmorph::paths::path_modifier;
use sdmorph::paths::step_output_path;

#[test]
fn test_path_modifier() {
    let path = String::from("test.tmp.png");
    let modifier = "_mod";
    let new_path = path_modifier(path, modifier);
    assert_eq!(new_path, "test_mod.tmp.png");
}

#[test]
fn test_path_modifier_without_dot() {
    assert_eq!(path_modifier(String::from("image"), "_1"), "image_1");
}

#[test]
fn test_path_modifier_leading_dot() {
    assert_eq!(path_modifier(String::from(".png"), "_1"), "_1.png");
}

#[test]
fn test_step_output_path_format() {
    let base = String::from("shots/run.png");
    assert_eq!(step_output_path(&base, 0, 0, 0), "shots/run_0_0_0.png");
    assert_eq!(step_output_path(&base, 2, 10, 3), "shots/run_2_10_3.png");
}

#[test]
fn test_step_output_paths_distinct_on_tricky_coordinates() {
    // suffixes that would collide if the separators were ambiguous
    let base = String::from("a.png");
    let p1 = step_output_path(&base, 1, 23, 4);
    let p2 = step_output_path(&base, 12, 3, 4);
    let p3 = step_output_path(&base, 1, 2, 34);
    assert_ne!(p1, p2);
    assert_ne!(p1, p3);
    assert_ne!(p2, p3);
}
