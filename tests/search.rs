use chaosregen::arith::Arithmetic;
use chaosregen::masks::Masks;
use chaosregen::search::{count_zones, select, Search};
use chaosregen::zones::Direction;

fn keys_for(want: Option<usize>, budget: usize) -> Vec<Option<u64>> {
    (0..budget).map(|i| Some(if Some(i) == want { 100 } else { 1 })).collect()
}

/// Run the controller, taking the parameters listed for each zone in turn.
fn run(data: Vec<u8>, arith: Arithmetic, dir: Direction, choices: &[Vec<usize>]) -> Vec<u8> {
    let n = data.len();
    let lg: Vec<u8> = (0..n).map(|i| (i * 13 % 256) as u8).collect();
    let mut s = Search::new(data, Masks::new(n, lg), arith, dir);
    let mut zone = 0;
    let mut k = 0;
    while !s.is_done() {
        let want = choices.get(zone).and_then(|c| c.get(k)).copied();
        let keys = keys_for(want, arith.pass_budget());
        let before = s.zone;
        let r = s.step(&keys, 10, 50);
        assert_eq!(r, want);
        if s.zone != before {
            zone += 1;
            k = 0;
        } else {
            k += 1;
        }
    }
    s.finish()
}

#[test]
fn select_takes_first_strict_maximum() {
    assert_eq!(select(&vec![Some(5), Some(9), Some(9)], 0, 1), Some(1));
    assert_eq!(select(&vec![None, Some(3), Some(2)], 0, 1), Some(1));
    assert_eq!(select(&vec![Some(5), Some(9)], 0, 10), None);
    assert_eq!(select(&vec![Some(5), Some(5)], 5, 0), None);
    assert_eq!(select(&vec![None, None], 0, 0), None);
    assert_eq!(select(&vec![], 0, 0), None);
}

#[test]
fn zone_count_rounds_up() {
    assert_eq!(count_zones(0), 0);
    assert_eq!(count_zones(1), 1);
    assert_eq!(count_zones(1024), 1);
    assert_eq!(count_zones(1025), 2);
    assert_eq!(count_zones(262144), 256);
}

#[test]
fn uniform_zone_passes_through() {
    let data = vec![0u8; 1024];
    let masks = Masks::new(1024, vec![0x5a; 1024]);
    let mut s = Search::new(data.clone(), masks, Arithmetic::Modular, Direction::Forward);
    assert!(!s.is_done());
    assert_eq!(s.zone_bytes(), data);
    let cands = s.candidates();
    assert_eq!(cands.len(), 3);
    assert!(cands.iter().all(|c| c.is_some()));
    // no candidate scores above the floor
    assert_eq!(s.step(&vec![Some(3), Some(0), Some(3)], 3, 4), None);
    assert!(s.is_done());
    assert_eq!(s.finish(), data);
}

#[test]
fn candidates_skip_used_parameters() {
    let data: Vec<u8> = (0..100u8).collect();
    let mut s = Search::new(data, Masks::new(100, vec![1; 100]), Arithmetic::Modular, Direction::Forward);
    let first = s.candidates();
    assert_eq!(s.step(&vec![Some(1), Some(9), Some(2)], 0, 5), Some(1));
    assert_eq!(s.zone_bytes(), first[1].clone().unwrap());
    let second = s.candidates();
    assert!(second[0].is_some());
    assert!(second[1].is_none());
    assert!(second[2].is_some());
    // the used parameter's key is ignored even when it is the largest
    assert_eq!(s.step(&vec![Some(6), Some(99), Some(7)], 0, 5), Some(2));
    assert_eq!(s.step(&vec![Some(6), Some(99), Some(7)], 0, 5), Some(0));
    // the budget is spent: the zone is closed
    assert!(s.is_done());
}

#[test]
fn reversed_choices_restore_the_input() {
    let data: Vec<u8> = (0..2500u32).map(|i| (i * i % 253) as u8).collect();
    let plans = vec![vec![1, 0], vec![2], vec![0, 2, 1]];
    let encoded = run(data.clone(), Arithmetic::Modular, Direction::Forward, &plans);
    assert_eq!(encoded.len(), data.len());
    assert_ne!(encoded, data);
    let reversed: Vec<Vec<usize>> = plans.iter().map(|p| p.iter().rev().copied().collect()).collect();
    let decoded = run(encoded, Arithmetic::Modular, Direction::Inverse, &reversed);
    assert_eq!(decoded, data);
}

#[test]
fn field_mode_round_trip() {
    let data: Vec<u8> = (0..1500u32).map(|i| (i % 256) as u8).collect();
    let plans = vec![vec![0], vec![]];
    let encoded = run(data.clone(), Arithmetic::Field, Direction::Forward, &plans);
    assert_ne!(encoded, data);
    let decoded = run(encoded, Arithmetic::Field, Direction::Inverse, &plans);
    assert_eq!(decoded, data);
}

#[test]
fn empty_input_has_no_zones() {
    let s = Search::new(vec![], Masks::new(0, vec![]), Arithmetic::Modular, Direction::Forward);
    assert!(s.is_done());
    assert_eq!(s.finish(), Vec::<u8>::new());
}
