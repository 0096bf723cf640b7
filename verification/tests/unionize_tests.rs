use intersection::unionize::unionize_set;
use intersection::unionize::RoleKey;
use intersection::userset::UserSet;

fn set(ids: &[u64]) -> UserSet {
    UserSet::from_vec(&ids.to_vec())
}

#[test]
fn cover_picks_exact_role() {
    // Target {2,3}; role 300 = {2,3} covers it exactly; larger roles do not
    // qualify, and the empty outliers remain.
    let t = set(&[2, 3]);
    let r = vec![
        (RoleKey::Everyone, set(&[1, 2, 3, 4, 5])),
        (RoleKey::Here, set(&[1, 2])),
        (RoleKey::Role(100), set(&[1, 2, 3])),
        (RoleKey::Role(200), set(&[2, 3, 4])),
        (RoleKey::Role(300), set(&[2, 3])),
    ];
    let res = unionize_set(&t, &r);
    assert_eq!(res.sets.len(), 1);
    assert!(matches!(res.sets[0].0, RoleKey::Role(300)));
    assert_eq!(res.outliers.to_vec(), Vec::<u64>::new());
}

#[test]
fn outliers_when_no_role_qualifies() {
    // Target {3,4,5}; no keyed set lies inside it, so all three users are
    // outliers.
    let t = set(&[3, 4, 5]);
    let r = vec![
        (RoleKey::Everyone, set(&[1, 2, 3, 4, 5])),
        (RoleKey::Here, set(&[1, 2, 3])),
        (RoleKey::Role(100), set(&[1, 2])),
    ];
    let res = unionize_set(&t, &r);
    assert_eq!(res.sets.len(), 0);
    assert_eq!(res.outliers.to_vec(), vec![3, 4, 5]);
}

#[test]
fn dominated_roles_are_dropped() {
    // {1} sits strictly inside {1,2} which sits strictly inside {1,2,3}:
    // only the largest stays, along with the unrelated {4}.
    let t = set(&[1, 2, 3, 4]);
    let r = vec![
        (RoleKey::Role(10), set(&[1])),
        (RoleKey::Role(11), set(&[1, 2])),
        (RoleKey::Role(12), set(&[1, 2, 3])),
        (RoleKey::Role(13), set(&[4])),
    ];
    let res = unionize_set(&t, &r);
    let keys: Vec<RoleKey> = res.sets.iter().map(|p| p.0).collect();
    assert_eq!(keys, vec![RoleKey::Role(12), RoleKey::Role(13)]);
    assert_eq!(res.outliers.to_vec(), Vec::<u64>::new());
}

#[test]
fn equal_sets_are_all_kept() {
    // Domination is strict, so two roles naming the same audience both stay.
    let t = set(&[1, 2]);
    let r = vec![
        (RoleKey::Role(10), set(&[1, 2])),
        (RoleKey::Role(11), set(&[1, 2])),
    ];
    let res = unionize_set(&t, &r);
    let keys: Vec<RoleKey> = res.sets.iter().map(|p| p.0).collect();
    assert_eq!(keys, vec![RoleKey::Role(10), RoleKey::Role(11)]);
}

#[test]
fn cover_and_outliers_reconstruct_target() {
    // The union of the cover plus the outliers is exactly the target.
    let t = set(&[1, 2, 3, 7, 9]);
    let r = vec![
        (RoleKey::Everyone, set(&[1, 2, 3, 4, 5, 6, 7, 8, 9])),
        (RoleKey::Here, set(&[2, 3])),
        (RoleKey::Role(100), set(&[1, 2])),
        (RoleKey::Role(200), set(&[5, 6])),
    ];
    let res = unionize_set(&t, &r);
    let mut reached: UserSet = res.outliers;
    for (_, members) in &res.sets {
        reached = reached.union(members);
    }
    assert_eq!(reached.to_vec(), vec![1, 2, 3, 7, 9]);
}

#[test]
fn cover_is_an_antichain() {
    let t = set(&[1, 2, 3, 4, 5]);
    let r = vec![
        (RoleKey::Role(10), set(&[1, 2])),
        (RoleKey::Role(11), set(&[2, 3])),
        (RoleKey::Role(12), set(&[1])),
        (RoleKey::Role(13), set(&[4, 5])),
    ];
    let res = unionize_set(&t, &r);
    for (_, a) in &res.sets {
        for (_, b) in &res.sets {
            let strictly_inside = a.is_subset_of(b) && !b.is_subset_of(a);
            assert!(!strictly_inside);
        }
    }
}

#[test]
fn everyone_qualifies_when_target_is_everyone() {
    let t = set(&[1, 2, 3]);
    let r = vec![
        (RoleKey::Everyone, set(&[1, 2, 3])),
        (RoleKey::Here, set(&[1])),
        (RoleKey::Role(100), set(&[2, 3])),
    ];
    let res = unionize_set(&t, &r);
    let keys: Vec<RoleKey> = res.sets.iter().map(|p| p.0).collect();
    assert_eq!(keys, vec![RoleKey::Everyone]);
    assert_eq!(res.outliers.to_vec(), Vec::<u64>::new());
}

#[test]
fn user_set_well_formedness_check() {
    assert!(set(&[3, 1, 2, 2]).check_wf());
    assert!(set(&[]).check_wf());
    assert!(set(&[7]).check_wf());
}
