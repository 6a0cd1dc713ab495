use catcodes::{CategoryMap, CharacterCategory};

#[test]
fn fresh_scope_is_invalid_everywhere() {
    let s = CategoryMap::new();
    for c in ['a', '\\', '{', '}', ' ', '%', '\u{0}', '\u{10FFFF}', 'é'] {
        assert_eq!(s.get(c), CharacterCategory::Invalid);
    }
}

#[test]
fn set_then_get_in_same_scope() {
    let mut s = CategoryMap::new();
    s.set('a', CharacterCategory::Letter);
    assert_eq!(s.get('a'), CharacterCategory::Letter);
    assert_eq!(s.get('b'), CharacterCategory::Invalid);
}

#[test]
fn setting_twice_overwrites() {
    let mut s = CategoryMap::new();
    s.set('%', CharacterCategory::Comment);
    s.set('%', CharacterCategory::Other);
    assert_eq!(s.get('%'), CharacterCategory::Other);
}

#[test]
fn child_assignment_does_not_reach_parent() {
    let mut s = CategoryMap::new();
    s.set('c', CharacterCategory::Letter);
    let mut child = s.child();
    assert_eq!(child.get('c'), CharacterCategory::Letter);
    child.set('c', CharacterCategory::Active);
    assert_eq!(child.get('c'), CharacterCategory::Active);
    let parent = child.leave_child();
    assert_eq!(parent.get('c'), CharacterCategory::Letter);
}

#[test]
fn lookup_falls_back_through_several_layers() {
    let mut s = CategoryMap::new();
    s.set('$', CharacterCategory::MathShift);
    let mut s = s.child();
    s.set('&', CharacterCategory::AlignmentTab);
    let s = s.child().child();
    assert_eq!(s.get('$'), CharacterCategory::MathShift);
    assert_eq!(s.get('&'), CharacterCategory::AlignmentTab);
    assert_eq!(s.get('#'), CharacterCategory::Invalid);
}

#[test]
fn inner_layer_shadows_outer() {
    let mut s = CategoryMap::new();
    s.set('~', CharacterCategory::Active);
    let mut s = s.child();
    s.set('~', CharacterCategory::Other);
    let mut s = s.child();
    assert_eq!(s.get('~'), CharacterCategory::Other);
    s.set('~', CharacterCategory::Space);
    assert_eq!(s.get('~'), CharacterCategory::Space);
    let s = s.leave_child();
    assert_eq!(s.get('~'), CharacterCategory::Other);
    let s = s.leave_child();
    assert_eq!(s.get('~'), CharacterCategory::Active);
}

#[test]
fn leaving_the_root_keeps_it() {
    let mut s = CategoryMap::new();
    s.set('^', CharacterCategory::Superscript);
    let s = s.leave_child();
    assert_eq!(s.get('^'), CharacterCategory::Superscript);
    assert!(s.parent.is_none());
}

#[test]
fn group_scenario() {
    let mut root = CategoryMap::new();
    root.set('\\', CharacterCategory::Escape);
    let mut child = root.child();
    child.set('{', CharacterCategory::BeginGroup);
    assert_eq!(child.get('\\'), CharacterCategory::Escape);
    assert_eq!(child.get('{'), CharacterCategory::BeginGroup);
    let restored = child.leave_child();
    assert_eq!(restored.get('{'), CharacterCategory::Invalid);
    assert_eq!(restored.get('\\'), CharacterCategory::Escape);
}

#[test]
fn every_category_round_trips() {
    let all = [
        CharacterCategory::Escape,
        CharacterCategory::BeginGroup,
        CharacterCategory::EndGroup,
        CharacterCategory::MathShift,
        CharacterCategory::AlignmentTab,
        CharacterCategory::EndOfLine,
        CharacterCategory::Parameter,
        CharacterCategory::Superscript,
        CharacterCategory::Subscript,
        CharacterCategory::Ignored,
        CharacterCategory::Space,
        CharacterCategory::Letter,
        CharacterCategory::Other,
        CharacterCategory::Active,
        CharacterCategory::Comment,
        CharacterCategory::Invalid,
    ];
    let mut s = CategoryMap::new();
    for (i, k) in all.iter().enumerate() {
        let c = char::from_u32('A' as u32 + i as u32).unwrap();
        s.set(c, *k);
    }
    for (i, k) in all.iter().enumerate() {
        let c = char::from_u32('A' as u32 + i as u32).unwrap();
        assert_eq!(s.get(c), *k);
    }
}
