use spdkit::Binary;
use spdkit::individual::OneMax;
use spdkit::prelude::Create;
use spdkit::prelude::Mutate;
use spdkit::prelude::get_rng_with_seed;
use rand::Rng;

#[test]
fn test_binary() {
    let x = Binary::new(vec![true, false, true]);
    let s = x.to_string();
    assert_eq!(s, "101");
    let y = Binary::from_str(&s);
    assert_eq!(x, y);

    let mut y = y.clone();
    y.flip(&vec![0]);

    assert_eq!(y.to_string(), "001");
}

#[test]
fn individual_test() {
    let codes: Vec<_> = vec!["10110", "01010"].iter().map(|x| Binary::from_str(x)).collect();

    let indvs = OneMax.create(codes);
    for indv in indvs.iter() {
        println!("indv {:}, objective value = {}", indv.genome().to_string(), indv.objective_value());
    }
    let mut scores: Vec<i64> = indvs.iter().map(|i| i.objective_value()).collect();
    scores.sort();
    assert_eq!(scores, vec![2, 3]);
}

#[test]
fn test_rng() {
    let mut rng = get_rng_with_seed(None);
    rng.gen::<i32>();
    assert_eq!(rng.gen_range(0..1), 0);
}

#[test]
fn mutate_flips_exactly_n_bits() {
    let mut rng = get_rng_with_seed(Some(7));
    for n in 0..4usize {
        let mut g = Binary::from_str("00000000");
        g.mutate(n, &mut rng);
        let flipped = (0..g.len()).filter(|&i| g.get(i)).count();
        assert_eq!(flipped, n);
    }
    // more positions asked for than bits exist: every bit flips once
    let mut g = Binary::from_str("000");
    g.mutate(10, &mut rng);
    assert_eq!(g.to_string(), "111");
}

#[test]
fn flip_twice_restores() {
    let mut g = Binary::from_str("1010");
    g.flip(&vec![1, 2]);
    assert_eq!(g.to_string(), "1100");
    g.flip(&vec![2, 1]);
    assert_eq!(g.to_string(), "1010");
    // a position listed twice toggles twice
    g.flip(&vec![0, 0]);
    assert_eq!(g.to_string(), "1010");
}
