use dev_ranking::rankings::{Developer, Ranking};

const ALL_DEVELOPERS: [Developer; 5] = [
    Developer::Evan,
    Developer::Jessie,
    Developer::John,
    Developer::Matt,
    Developer::Sarah,
];

fn count_of(ranking: &Ranking, dev: Developer) -> usize {
    ranking.items().iter().filter(|d| **d == dev).count()
}

#[test]
fn test_ranking_get_best() {
    assert_eq!(Ranking::alphabetical().get_best(), Some(&Developer::Evan));
}

#[test]
fn test_ranking_get_worst() {
    assert_eq!(Ranking::alphabetical().get_worst(), Some(&Developer::Sarah));
}

#[test]
fn test_ranking_get_relative_rank() {
    let alphabetical_ranking = Ranking::alphabetical();
    assert_eq!(alphabetical_ranking.get_relative_rank(&Developer::Evan, &Developer::Sarah), 4);
    assert_eq!(alphabetical_ranking.get_relative_rank(&Developer::Evan, &Developer::Jessie), 1);
    assert_eq!(alphabetical_ranking.get_relative_rank(&Developer::Jessie, &Developer::Matt), 2);
    assert_eq!(alphabetical_ranking.get_relative_rank(&Developer::Matt, &Developer::Jessie), -2);
    assert_eq!(alphabetical_ranking.get_relative_rank(&Developer::Matt, &Developer::Matt), 0);
}

#[test]
fn test_ranking_random() {
    let alphabetical_ranking = Ranking::alphabetical();
    let random_ranking = Ranking::random();
    assert_eq!(alphabetical_ranking.len(), random_ranking.len());
}

#[test]
fn test_ranking_formatting() {
    let ranking = Ranking::alphabetical();
    assert_eq!(
        &ranking.to_display_string(),
        "Evan (best) -> Jessie -> John -> Matt -> Sarah (worst)"
    );
}

#[test]
fn test_alphabetical_is_fixed() {
    let first = Ranking::alphabetical();
    let second = Ranking::alphabetical();
    assert_eq!(first, second);
    assert_eq!(
        first.items(),
        vec![
            Developer::Evan,
            Developer::Jessie,
            Developer::John,
            Developer::Matt,
            Developer::Sarah,
        ]
    );
}

#[test]
fn test_random_is_permutation_of_universe() {
    for _ in 0..50 {
        let random_ranking = Ranking::random();
        assert_eq!(random_ranking.len(), 5);
        for dev in ALL_DEVELOPERS {
            assert_eq!(count_of(&random_ranking, dev), 1);
        }
    }
}

#[test]
fn test_random_varies() {
    let alphabetical_ranking = Ranking::alphabetical();
    let mut saw_other_order = false;
    for _ in 0..50 {
        if Ranking::random() != alphabetical_ranking {
            saw_other_order = true;
        }
    }
    assert!(saw_other_order);
}

#[test]
fn test_relative_rank_self_is_zero() {
    let random_ranking = Ranking::random();
    for dev in ALL_DEVELOPERS {
        assert_eq!(random_ranking.get_relative_rank(&dev, &dev), 0);
    }
}

#[test]
fn test_relative_rank_antisymmetric() {
    let random_ranking = Ranking::random();
    for a in ALL_DEVELOPERS {
        for b in ALL_DEVELOPERS {
            assert_eq!(
                random_ranking.get_relative_rank(&a, &b),
                -random_ranking.get_relative_rank(&b, &a)
            );
        }
    }
}

#[test]
fn test_shuffle_zero_is_identity() {
    let ranking = Ranking::alphabetical();
    assert_eq!(ranking.shuffle(0), ranking);
    let random_ranking = Ranking::random();
    assert_eq!(random_ranking.shuffle(0), random_ranking);
}

#[test]
fn test_shuffle_keeps_the_items() {
    let ranking = Ranking::alphabetical();
    for count in [1, 2, 7] {
        let shuffled = ranking.shuffle(count);
        assert_eq!(shuffled.len(), 5);
        for dev in ALL_DEVELOPERS {
            assert_eq!(count_of(&shuffled, dev), 1);
        }
    }
}

#[test]
fn test_shuffle_varies() {
    let ranking = Ranking::alphabetical();
    let mut saw_other_order = false;
    for _ in 0..50 {
        if ranking.shuffle(10) != ranking {
            saw_other_order = true;
        }
    }
    assert!(saw_other_order);
}

#[test]
fn test_formatting_empty() {
    let ranking = Ranking::new(Vec::new());
    assert_eq!(&ranking.to_display_string(), "Empty ranking");
}

#[test]
fn test_formatting_single() {
    let ranking = Ranking::new(vec![Developer::Matt]);
    assert_eq!(&ranking.to_display_string(), "Matt");
}
