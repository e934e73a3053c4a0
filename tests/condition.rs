use shulkerbox::condition::Condition;

fn atoms() -> (Condition, Condition, Condition) {
    (Condition::atom("foo"), Condition::atom("bar"), Condition::atom("baz"))
}

fn check_normalize_cases() {
    let (c1, c2, c3) = atoms();

    assert_eq!(c1.clone().and(c2.clone()).normalize(), c1.clone().and(c2.clone()));
    assert_eq!(
        c1.clone().and(c2.clone()).and(c3.clone()).normalize(),
        c1.clone().and(c2.clone()).and(c3.clone())
    );
    assert_eq!(c1.clone().or(c2.clone()).normalize(), c1.clone().or(c2.clone()));
    assert_eq!(
        c1.clone().or(c2.clone()).or(c3.clone()).normalize(),
        c1.clone().or(c2.clone()).or(c3.clone())
    );
    assert_eq!(
        c1.clone().and(c2.clone()).or(c3.clone()).normalize(),
        c1.clone().and(c2.clone()).or(c3.clone())
    );
    assert_eq!(
        c1.clone().or(c2.clone().and(c3.clone())).normalize(),
        c1.clone().or(c2.clone().and(c3.clone()))
    );
    assert_eq!(
        c1.clone().and(c2.clone()).or(c3.clone().and(c1.clone())).normalize(),
        c1.clone().and(c2.clone()).or(c3.clone().and(c1.clone()))
    );
    assert_eq!(
        c1.clone().or(c2.clone()).not().normalize(),
        c1.clone().not().and(c2.clone().not())
    );
    assert_eq!(
        c1.clone().and(c2.clone()).not().normalize(),
        c1.clone().not().or(c2.clone().not())
    );
}

fn check_truth_table_cases() {
    let c1 = Condition::Atom("foo".to_string());
    let c2 = Condition::Atom("bar".to_string());
    let c3 = Condition::Atom("baz".to_string());
    let c4 = Condition::Atom("foobar".to_string());

    assert_eq!(c1.clone().and(c2.clone()).to_truth_table(), vec![c1.clone().and(c2.clone())]);
    assert_eq!(
        c1.clone().and(c2.clone()).and(c3.clone()).to_truth_table(),
        vec![c1.clone().and(c2.clone()).and(c3.clone())]
    );
    assert_eq!(c1.clone().or(c2.clone()).to_truth_table(), vec![c1.clone(), c2.clone()]);
    assert_eq!(
        c1.clone().or(c2.clone()).and(c3.clone()).to_truth_table(),
        vec![c1.clone().and(c3.clone()), c2.clone().and(c3.clone())]
    );
    assert_eq!(
        c1.clone().and(c2.clone()).or(c3.clone()).to_truth_table(),
        vec![c1.clone().and(c2.clone()), c3.clone()]
    );
    assert_eq!(
        c1.clone().and(c2.clone().or(c3.clone().and(c4.clone())).not()).to_truth_table(),
        vec![
            c1.clone().and(c2.clone().not().and(c3.clone().not())),
            c1.clone().and(c2.clone().not().and(c4.clone().not()))
        ]
    );
}

#[test]
fn execute_test_condition() {
    check_normalize_cases();
}

#[test]
fn conditional_test_condition() {
    check_normalize_cases();
}

#[test]
fn execute_test_truth_table() {
    check_truth_table_cases();
}

#[test]
fn conditional_test_truth_table() {
    check_truth_table_cases();
}

#[test]
fn normalize_twice_is_normalize_once() {
    let (a, b, c) = atoms();
    let nested = a.clone().and(b.clone().or(c.clone()).not()).not().not().or(c.clone().not().not());
    let once = nested.normalize();
    assert_eq!(once.normalize(), once);
    assert_eq!(
        once,
        a.clone().and(b.clone().not().and(c.clone().not())).or(c.clone())
    );
}

#[test]
fn clause_counts_multiply_and_add() {
    let (a, b, c) = atoms();
    let left = a.clone().or(b.clone());
    let right = b.clone().or(c.clone()).or(a.clone());
    assert_eq!(left.clone().and(right.clone()).to_truth_table().len(), 2 * 3);
    assert_eq!(left.clone().or(right.clone()).to_truth_table().len(), 2 + 3);
}

#[test]
fn double_negation_expands_to_the_atom() {
    let a = Condition::atom("foo");
    assert_eq!(a.clone().not().not().to_truth_table(), vec![a.clone()]);
}

#[test]
fn clause_texts() {
    let (a, b, c) = atoms();
    let cond = a.clone().and(b.clone().not()).or(c.clone());
    assert_eq!(cond.str_cond(), None);
    assert_eq!(
        a.clone().and(b.clone().not()).str_cond(),
        Some("if foo unless bar".to_string())
    );
    assert_eq!(a.clone().not().not().str_cond(), None);
}
