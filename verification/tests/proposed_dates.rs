use ethnographers::proposed_dates;

#[test]
fn proposed_dates_are_internally_consistent_1() {
    let fact_form1 = vec![(1, 2), (3, 4), (4, 6)];
    let fact_form2 = vec![(2, 3), (5, 6)];
    let n = 6;

    if let Some((birth, death)) = proposed_dates(&fact_form1, &fact_form2, n) {
        for (a, b) in &fact_form1 {
            // a died before b was born
            assert!(death[(a - 1) as usize] < birth[(b - 1) as usize]);
        }
        for (a, b) in &fact_form2 {
            assert!(
                // a born before b died and b born before a died
                birth[(a - 1) as usize] < death[(b - 1) as usize]
                    && birth[(b - 1) as usize] < death[(a - 1) as usize]
            );
        }
        // birth date comes before death date
        for i in 1..=n {
            assert!(birth[i - 1] < death[i - 1]);
        }
    } else {
        panic!("proposed dates not internally consistent");
    }
}

#[test]
fn dates_form_a_permutation() {
    let fact_form1 = vec![(1, 2), (3, 4), (4, 6)];
    let fact_form2 = vec![(2, 3), (5, 6)];
    let n = 6;

    let (birth, death) = proposed_dates(&fact_form1, &fact_form2, n).unwrap();
    assert_eq!(birth.len(), n);
    assert_eq!(death.len(), n);
    let mut dates: Vec<usize> = Vec::new();
    dates.extend(&birth);
    dates.extend(&death);
    dates.sort();
    let expected: Vec<usize> = (1..=2 * n).collect();
    assert_eq!(dates, expected);
}

#[test]
fn contradictory_form1_facts_are_rejected() {
    // 1 died before 2 was born, and 2 died before 1 was born: impossible.
    let fact_form1 = vec![(1, 2), (2, 1)];
    let fact_form2 = vec![];
    assert!(proposed_dates(&fact_form1, &fact_form2, 2).is_none());
}

#[test]
fn mixed_form_contradiction_is_rejected() {
    // 1 died before 2 was born, yet their lives overlapped.
    let fact_form1 = vec![(1, 2)];
    let fact_form2 = vec![(1, 2)];
    assert!(proposed_dates(&fact_form1, &fact_form2, 2).is_none());
}

#[test]
fn single_person_no_facts_is_consistent() {
    let (birth, death) = proposed_dates(&[], &[], 1).unwrap();
    assert_eq!(birth.len(), 1);
    assert_eq!(death.len(), 1);
    assert!(birth[0] < death[0]);
    let mut dates = vec![birth[0], death[0]];
    dates.sort();
    assert_eq!(dates, vec![1, 2]);
}

#[test]
fn empty_input_is_consistent() {
    let (birth, death) = proposed_dates(&[], &[], 0).unwrap();
    assert!(birth.is_empty());
    assert!(death.is_empty());
}

#[test]
fn verdict_is_stable_across_runs() {
    let fact_form1 = vec![(1, 2), (3, 4), (4, 6)];
    let fact_form2 = vec![(2, 3), (5, 6)];
    let first = proposed_dates(&fact_form1, &fact_form2, 6);
    let second = proposed_dates(&fact_form1, &fact_form2, 6);
    assert_eq!(first.is_some(), second.is_some());

    let bad_form1 = vec![(1, 2), (2, 1)];
    let first = proposed_dates(&bad_form1, &[], 2);
    let second = proposed_dates(&bad_form1, &[], 2);
    assert_eq!(first.is_some(), second.is_some());
}

#[test]
fn duplicate_facts_add_only_redundant_edges() {
    let fact_form1 = vec![(1, 2), (1, 2)];
    let fact_form2 = vec![];
    let (birth, death) = proposed_dates(&fact_form1, &fact_form2, 2).unwrap();
    assert!(death[0] < birth[1]);
    assert!(birth[0] < death[0]);
    assert!(birth[1] < death[1]);
}

#[test]
fn overlapping_pair_is_consistent() {
    let fact_form1 = vec![];
    let fact_form2 = vec![(1, 2)];
    let (birth, death) = proposed_dates(&fact_form1, &fact_form2, 2).unwrap();
    assert!(birth[0] < death[1]);
    assert!(birth[1] < death[0]);
}

#[test]
fn person_overlapping_with_self_is_consistent() {
    let fact_form1 = vec![];
    let fact_form2 = vec![(1, 1)];
    let (birth, death) = proposed_dates(&fact_form1, &fact_form2, 1).unwrap();
    assert!(birth[0] < death[0]);
}

#[test]
fn chain_of_generations_is_ordered() {
    // 1 died before 2 was born, 2 before 3: the dates must be staggered.
    let fact_form1 = vec![(1, 2), (2, 3)];
    let fact_form2 = vec![];
    let (birth, death) = proposed_dates(&fact_form1, &fact_form2, 3).unwrap();
    assert!(birth[0] < death[0]);
    assert!(death[0] < birth[1]);
    assert!(birth[1] < death[1]);
    assert!(death[1] < birth[2]);
    assert!(birth[2] < death[2]);
}
