use lethe::actions::first_difference;
use lethe::sanitization::{SchemeRepo, Stage};

#[test]
fn repository_holds_the_five_schemes_by_name() {
    let repo = SchemeRepo::default();
    let ids: Vec<&str> = repo.all().iter().map(|s| s.id.as_str()).collect();
    assert_eq!(ids, vec!["dod", "gost", "one", "random", "zero"]);

    let zero = repo.find("zero").unwrap();
    assert_eq!(zero.stages, vec![Stage::Fill { value: 0x00 }]);
    assert_eq!(zero.description, "Single zeroes fill");
    let one = repo.find("one").unwrap();
    assert_eq!(one.stages, vec![Stage::Fill { value: 0xff }]);
    let random = repo.find("random").unwrap();
    assert_eq!(random.stages.len(), 1);
    assert!(matches!(random.stages[0], Stage::Random { .. }));
    let gost = repo.find("gost").unwrap();
    assert_eq!(gost.stages.len(), 2);
    assert_eq!(gost.stages[0], Stage::Fill { value: 0x00 });
    assert!(matches!(gost.stages[1], Stage::Random { .. }));
    assert_eq!(gost.description, "GOST R 50739-95");
    let dod = repo.find("dod").unwrap();
    assert_eq!(dod.stages.len(), 3);
    assert_eq!(dod.stages[0], Stage::Fill { value: 0x00 });
    assert_eq!(dod.stages[1], Stage::Fill { value: 0xff });
    assert!(matches!(dod.stages[2], Stage::Random { .. }));
    assert_eq!(dod.description, "DOD 5220.22-M");
}

#[test]
fn unknown_scheme_is_not_found() {
    let repo = SchemeRepo::default();
    assert!(repo.find("random2").is_none());
    assert!(repo.find("").is_none());
    assert!(repo.find("Zero").is_none());
}

#[test]
fn stage_constructors_give_the_named_patterns() {
    assert_eq!(Stage::zero(), Stage::Fill { value: 0x00 });
    assert_eq!(Stage::one(), Stage::Fill { value: 0xff });
    assert_eq!(Stage::random_with_seed(17), Stage::Random { seed: 17 });
    assert!(matches!(Stage::random(), Stage::Random { .. }));
}

#[test]
fn random_stages_draw_their_own_seeds() {
    let seeds: Vec<Stage> = (0..8).map(|_| Stage::random()).collect();
    assert!(seeds.iter().any(|s| *s != seeds[0]));
}

fn blocks(stage: &Stage, size: u64, block: usize) -> Vec<Vec<u8>> {
    let mut all: Vec<Vec<u8>> = Vec::new();
    let mut stream = stage.stream(size, block);
    while let Some(chunk) = stream.next() {
        all.push(chunk.to_vec());
    }
    all
}

#[test]
fn last_block_holds_what_is_left() {
    let cut = blocks(&Stage::one(), 10245, 256);
    assert_eq!(cut.len(), 41);
    assert!(cut[..40].iter().all(|b| b.len() == 256));
    assert_eq!(cut[40].len(), 10245 % 256);
    assert_eq!(cut.iter().map(|b| b.len()).sum::<usize>(), 10245);
    assert!(cut.iter().all(|b| b.iter().all(|x| *x == 0xff)));

    let even = blocks(&Stage::random_with_seed(1), 1024, 256);
    assert_eq!(even.len(), 4);
    assert!(even.iter().all(|b| b.len() == 256));

    let small = blocks(&Stage::zero(), 3, 256);
    assert_eq!(small, vec![vec![0u8; 3]]);

    assert!(blocks(&Stage::zero(), 0, 256).is_empty());
    assert_eq!(blocks(&Stage::Fill { value: 9 }, 5, 1), vec![vec![9u8]; 5]);
}

#[test]
fn streams_of_one_seed_agree_block_by_block() {
    for size in [0u64, 1, 255, 256, 257, 10245] {
        let first = blocks(&Stage::random_with_seed(99), size, 256);
        let second = blocks(&Stage::random_with_seed(99), size, 256);
        assert_eq!(first, second);
    }
    assert_ne!(
        blocks(&Stage::random_with_seed(99), 512, 256),
        blocks(&Stage::random_with_seed(100), 512, 256)
    );
}

#[test]
fn random_blocks_differ_from_each_other() {
    let cut = blocks(&Stage::random_with_seed(5), 1024, 256);
    assert_ne!(cut[0], cut[1]);
    assert_ne!(cut[0], vec![0u8; 256]);
}

#[test]
fn stream_shows_an_empty_block_before_its_first_step_and_nothing_after_its_last() {
    let stage = Stage::Fill { value: 0x33 };
    let mut stream = stage.stream(300, 256);
    assert_eq!(stream.get(), Some(&[][..]));
    stream.advance();
    assert_eq!(stream.get().unwrap().len(), 256);
    stream.advance();
    assert_eq!(stream.get(), Some(&[0x33u8; 44][..]));
    stream.advance();
    assert_eq!(stream.get(), None);
    stream.advance();
    assert_eq!(stream.get(), None);
    assert_eq!(stream.next(), None);
}

#[test]
fn first_difference_finds_the_first_byte_not_confirmed() {
    assert_eq!(first_difference(&[1, 2, 3], &[1, 2, 3]), None);
    assert_eq!(first_difference(&[1, 2, 3], &[1, 9, 9]), Some(1));
    assert_eq!(first_difference(&[1, 2, 3], &[9, 2, 3]), Some(0));
    assert_eq!(first_difference(&[1, 2, 3], &[1, 2]), Some(2));
    assert_eq!(first_difference(&[1, 2, 3], &[]), Some(0));
    assert_eq!(first_difference(&[1, 2], &[1, 2, 3]), None);
    assert_eq!(first_difference(&[], &[]), None);
}

#[test]
fn random_blocks_of_odd_lengths_agree_too() {
    for block in [1usize, 2, 3, 5, 7, 255, 257] {
        let first = blocks(&Stage::random_with_seed(4242), 1000, block);
        let second = blocks(&Stage::random_with_seed(4242), 1000, block);
        assert_eq!(first, second);
        assert_eq!(first.iter().map(|b| b.len()).sum::<usize>(), 1000);
    }
}
