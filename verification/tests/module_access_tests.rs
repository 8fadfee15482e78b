use vti::{Module, Pattern, MAX_NUM_OF_PATS};

#[test]
fn pattern_mut_reaches_numbered_and_blank_patterns() {
    let mut m = Module::default();
    *m.pattern_mut(3) = Some(Box::new(Pattern { length: 7, ..Pattern::default() }));
    assert_eq!(m.patterns[3].as_ref().unwrap().length, 7);
    *m.pattern_mut(-1) = Some(Box::new(Pattern { length: 2, ..Pattern::default() }));
    assert_eq!(m.patterns[MAX_NUM_OF_PATS].as_ref().unwrap().length, 2);
    *m.blank_pattern_mut() = None;
    assert!(m.patterns[MAX_NUM_OF_PATS].is_none());
    assert_eq!(m.pattern(3).unwrap().length, 7);
}
