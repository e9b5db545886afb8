use adventkit::cpu::word::Word;
use adventkit::day01::{cumulative_fuel, fuel};
use adventkit::day04::ok;
use adventkit::day07;
use adventkit::day10::Point;
use adventkit::day12::{gcd, lcm, parse_initial_state, solve1 as moons_solve1, solve2 as moons_solve2};
use adventkit::day14::{
    make_recipe_map, open_ended_binary_search, parse_recipes, Chemical, Reagent, Recipe,
};
use adventkit::day11::{
    perform_turn_and_move, run_robot, Heading, PaintColour, Panel, ShipSurface,
};
use adventkit::day15::{part2, CompassDirection, Position, ShipMap};
use adventkit::day16::{fft, fft_rounds, get_pattern};
use std::cmp::Ordering;

#[test]
fn test_fuel() {
    assert!(fuel(12) == 2);
    assert!(fuel(14) == 2);
    assert!(fuel(1969) == 654);
    assert!(fuel(100756) == 33583);
}

#[test]
fn cumulative_fuel_counts_the_fuel_for_the_fuel() {
    assert_eq!(cumulative_fuel(14), 2);
    assert_eq!(cumulative_fuel(1969), 966);
    assert_eq!(cumulative_fuel(100756), 50346);
}

#[test]
fn test_ok() {
    assert!(ok(&111111, usize::MAX));
    assert!(!ok(&223450, usize::MAX));
    assert!(!ok(&123789, usize::MAX));
    assert!(ok(&112345, usize::MAX));
    assert!(ok(&122345, usize::MAX));
    assert!(ok(&1356799, usize::MAX));

    assert!(!ok(&123444, 1));
    assert!(ok(&11122, 1));
}

#[test]
fn test_pattern() {
    fn v(input_len: usize, out_pos: usize) -> Vec<i32> {
        get_pattern(input_len, out_pos)
    }

    assert_eq!(v(10, 1), vec![1, 0, -1, 0, 1, 0, -1, 0, 1, 0]);
    assert_eq!(
        v(15, 2),
        vec![0, 1, 1, 0, 0, -1, -1, 0, 0, 1, 1, 0, 0, -1, -1]
    );
    assert_eq!(v(10, 3), vec![0, 0, 1, 1, 1, 0, 0, 0, -1, -1]);
}

#[test]
fn test_fft() {
    assert_eq!(fft(&[1, 2, 3, 4, 5, 6, 7, 8]), vec![4, 8, 2, 2, 6, 1, 5, 8]);
}

#[test]
fn test_fft_rounds() {
    assert_eq!(
        fft_rounds(&[1, 2, 3, 4, 5, 6, 7, 8], 1),
        vec![4, 8, 2, 2, 6, 1, 5, 8]
    );
    assert_eq!(
        fft_rounds(&[1, 2, 3, 4, 5, 6, 7, 8], 2),
        vec![3, 4, 0, 4, 0, 4, 3, 8]
    );
    assert_eq!(
        fft_rounds(&[1, 2, 3, 4, 5, 6, 7, 8], 3),
        vec![0, 3, 4, 1, 5, 5, 1, 8]
    );
    assert_eq!(
        fft_rounds(&[1, 2, 3, 4, 5, 6, 7, 8], 4),
        vec![0, 1, 0, 2, 9, 4, 9, 8]
    );
}

#[test]
fn test_gcd() {
    assert_eq!(gcd(12, 9), 3);
    assert_eq!(gcd(12, 8), 4);
    assert_eq!(gcd(12, 11), 1);
}

#[test]
fn test_lcm() {
    assert_eq!(lcm(3, 4), 12);
    assert_eq!(lcm(12, 8), 24);
}

fn moon_lines(lines: &[&str]) -> Vec<String> {
    lines.iter().map(|s| String::from(*s)).collect()
}

#[test]
fn test_solve1_first_example() {
    let input = moon_lines(&[
        "<x=-1, y=0, z=2>\n",
        "<x=2, y=-10, z=-7>\n",
        "<x=4, y=-8, z=8>\n",
        "<x=3, y=5, z=-1>\n",
    ]);
    let mut system = parse_initial_state(&input).expect("test input should be valid");
    let energy = moons_solve1(&mut system, 10).expect("simulation should succeed");
    assert_eq!(energy, 179);
}

#[test]
fn test_solve1_second_example() {
    let input = moon_lines(&[
        "<x=-8, y=-10, z=0>\n",
        "<x=5, y=5, z=10>\n",
        "<x=2, y=-7, z=3>\n",
        "<x=9, y=-8, z=-3>\n",
    ]);
    let mut system = parse_initial_state(&input).expect("test input should be valid");
    let energy = moons_solve1(&mut system, 100).expect("simulation should succeed");
    assert_eq!(energy, 1940);
}

#[test]
fn test_solve2_first_example() {
    let input = moon_lines(&[
        "<x=-1, y=0, z=2>\n",
        "<x=2, y=-10, z=-7>\n",
        "<x=4, y=-8, z=8>\n",
        "<x=3, y=5, z=-1>\n",
    ]);
    let mut system = parse_initial_state(&input).expect("test input should be valid");
    assert_eq!(moons_solve2(&mut system, 3000), Ok(Some(2772)));
}

#[test]
fn test_multiplier_to_produce() {
    let r1 = Recipe {
        inputs: vec![Reagent {
            quantity: 9,
            chemical: Chemical::new("ORE"),
        }],
        output: Reagent {
            quantity: 2,
            chemical: Chemical::new("A"),
        },
    };
    assert_eq!(5, r1.multiplier_to_produce(&10));
    assert_eq!(6, r1.multiplier_to_produce(&11));
}

fn recipe_lines(lines: &[&str]) -> Vec<String> {
    lines.iter().map(|s| String::from(*s)).collect()
}

#[test]
fn test_solve1_example1() {
    let recipes = parse_recipes(&recipe_lines(&[
        "9 ORE => 2 A",
        "8 ORE => 3 B",
        "7 ORE => 5 C",
        "3 A, 4 B => 1 AB",
        "5 B, 7 C => 1 BC",
        "4 C, 1 A => 1 CA",
        "2 AB, 3 BC, 4 CA => 1 FUEL",
    ]))
    .expect("example 1 should be valid");
    let mapping = make_recipe_map(recipes);
    assert_eq!(adventkit::day14::solve1(&mapping), Ok(165));
}

#[test]
fn test_solve1_example2() {
    let recipes = parse_recipes(&recipe_lines(&[
        "157 ORE => 5 NZVS",
        "165 ORE => 6 DCFZ",
        "44 XJWVT, 5 KHKGT, 1 QDVJ, 29 NZVS, 9 GPVTF, 48 HKGWZ => 1 FUEL",
        "12 HKGWZ, 1 GPVTF, 8 PSHF => 9 QDVJ",
        "179 ORE => 7 PSHF",
        "177 ORE => 5 HKGWZ",
        "7 DCFZ, 7 PSHF => 2 XJWVT",
        "165 ORE => 2 GPVTF",
        "3 DCFZ, 7 NZVS, 5 HKGWZ, 10 PSHF => 8 KHKGT",
    ]))
    .expect("part 1 example 2 should be valid");
    let mapping = make_recipe_map(recipes);
    assert_eq!(adventkit::day14::solve1(&mapping), Ok(13312));
}

#[test]
fn test_solve1_example3() {
    let recipes = parse_recipes(&recipe_lines(&[
        "2 VPVL, 7 FWMGM, 2 CXFTF, 11 MNCFX => 1 STKFG",
        "17 NVRVD, 3 JNWZP => 8 VPVL",
        "53 STKFG, 6 MNCFX, 46 VJHF, 81 HVMC, 68 CXFTF, 25 GNMV => 1 FUEL",
        "22 VJHF, 37 MNCFX => 5 FWMGM",
        "139 ORE => 4 NVRVD",
        "144 ORE => 7 JNWZP",
        "5 MNCFX, 7 RFSQX, 2 FWMGM, 2 VPVL, 19 CXFTF => 3 HVMC",
        "5 VJHF, 7 MNCFX, 9 VPVL, 37 CXFTF => 6 GNMV",
        "145 ORE => 6 MNCFX",
        "1 NVRVD => 8 CXFTF",
        "1 VJHF, 6 MNCFX => 4 RFSQX",
        "176 ORE => 6 VJHF",
    ]))
    .expect("part 1 example 3 should be valid");
    let mapping = make_recipe_map(recipes);
    assert_eq!(adventkit::day14::solve1(&mapping), Ok(180697));
}

#[test]
fn test_solve1_example4() {
    let recipes = parse_recipes(&recipe_lines(&[
        "171 ORE => 8 CNZTR",
        "7 ZLQW, 3 BMBT, 9 XCVML, 26 XMNCP, 1 WPTQ, 2 MZWV, 1 RJRHP => 4 PLWSL",
        "114 ORE => 4 BHXH",
        "14 VRPVC => 6 BMBT",
        "6 BHXH, 18 KTJDG, 12 WPTQ, 7 PLWSL, 31 FHTLT, 37 ZDVW => 1 FUEL",
        "6 WPTQ, 2 BMBT, 8 ZLQW, 18 KTJDG, 1 XMNCP, 6 MZWV, 1 RJRHP => 6 FHTLT",
        "15 XDBXC, 2 LTCX, 1 VRPVC => 6 ZLQW",
        "13 WPTQ, 10 LTCX, 3 RJRHP, 14 XMNCP, 2 MZWV, 1 ZLQW => 1 ZDVW",
        "5 BMBT => 4 WPTQ",
        "189 ORE => 9 KTJDG",
        "1 MZWV, 17 XDBXC, 3 XCVML => 2 XMNCP",
        "12 VRPVC, 27 CNZTR => 2 XDBXC",
        "15 KTJDG, 12 BHXH => 5 XCVML",
        "3 BHXH, 2 VRPVC => 7 MZWV",
        "121 ORE => 7 VRPVC",
        "7 XCVML => 6 RJRHP",
        "5 BHXH, 4 VRPVC => 5 LTCX",
    ]))
    .expect("part 1 example 4 should be valid");
    let mapping = make_recipe_map(recipes);
    assert_eq!(adventkit::day14::solve1(&mapping), Ok(2210736));
}

fn check_can_guess_number(goal: i64) {
    let check = |guess: i64| -> Result<Ordering, String> { Ok(goal.cmp(&guess)) };
    let solution = open_ended_binary_search(1, None, check).expect("search should finish");
    assert_eq!(solution, goal, "failed to guess {}", goal);
}

#[test]
fn test_open_ended_binary_search_exact() {
    check_can_guess_number(1);
    check_can_guess_number(2);
    check_can_guess_number(3);
    check_can_guess_number(15);
    check_can_guess_number(16);
    check_can_guess_number(17);
    check_can_guess_number(100);
    check_can_guess_number(1000000);
    check_can_guess_number(i64::MAX - 1);
}

fn check_can_guess_number_and_a_half(goal: i64) {
    let check = |guess: i64| -> Result<Ordering, String> {
        Ok(match goal.cmp(&guess) {
            Ordering::Equal => Ordering::Greater,
            other => other,
        })
    };
    let solution = open_ended_binary_search(1, None, check).expect("search should finish");
    assert_eq!(solution, goal, "failed to guess {}½", goal);
}

#[test]
fn test_open_ended_binary_search_inexact() {
    check_can_guess_number_and_a_half(1);
    check_can_guess_number_and_a_half(2);
    check_can_guess_number_and_a_half(3);
    check_can_guess_number_and_a_half(15);
    check_can_guess_number_and_a_half(16);
    check_can_guess_number_and_a_half(17);
    check_can_guess_number_and_a_half(100);
    check_can_guess_number_and_a_half(1000000);
    check_can_guess_number_and_a_half(i64::MAX - 1);
}

#[test]
fn test_solve2_example2() {
    let recipes = parse_recipes(&recipe_lines(&[
        "157 ORE => 5 NZVS",
        "165 ORE => 6 DCFZ",
        "44 XJWVT, 5 KHKGT, 1 QDVJ, 29 NZVS, 9 GPVTF, 48 HKGWZ => 1 FUEL",
        "12 HKGWZ, 1 GPVTF, 8 PSHF => 9 QDVJ",
        "179 ORE => 7 PSHF",
        "177 ORE => 5 HKGWZ",
        "7 DCFZ, 7 PSHF => 2 XJWVT",
        "165 ORE => 2 GPVTF",
        "3 DCFZ, 7 NZVS, 5 HKGWZ, 10 PSHF => 8 KHKGT",
    ]))
    .expect("part 2 example 2 should be valid");
    let mapping = make_recipe_map(recipes);
    assert_eq!(adventkit::day14::solve2(&mapping), Ok(82892753));
}

#[test]
fn test_solve2_example3() {
    let recipes = parse_recipes(&recipe_lines(&[
        "2 VPVL, 7 FWMGM, 2 CXFTF, 11 MNCFX => 1 STKFG",
        "17 NVRVD, 3 JNWZP => 8 VPVL",
        "53 STKFG, 6 MNCFX, 46 VJHF, 81 HVMC, 68 CXFTF, 25 GNMV => 1 FUEL",
        "22 VJHF, 37 MNCFX => 5 FWMGM",
        "139 ORE => 4 NVRVD",
        "144 ORE => 7 JNWZP",
        "5 MNCFX, 7 RFSQX, 2 FWMGM, 2 VPVL, 19 CXFTF => 3 HVMC",
        "5 VJHF, 7 MNCFX, 9 VPVL, 37 CXFTF => 6 GNMV",
        "145 ORE => 6 MNCFX",
        "1 NVRVD => 8 CXFTF",
        "1 VJHF, 6 MNCFX => 4 RFSQX",
        "176 ORE => 6 VJHF",
    ]))
    .expect("part 1 example 3 should be valid");
    let mapping = make_recipe_map(recipes);
    assert_eq!(adventkit::day14::solve2(&mapping), Ok(5586022));
}

fn orbit_pairs(lines: &[&str]) -> Vec<(String, String)> {
    lines
        .iter()
        .map(|s| adventkit::day06::string_to_oribit(s).expect("test data should be valid"))
        .collect()
}

#[test]
fn test_count_orbits() {
    let orbits = orbit_pairs(&[
        "COM)B", "B)C", "C)D", "D)E", "E)F", "B)G", "G)H", "D)I", "E)J", "J)K", "K)L",
    ]);
    let (parent_of, all_bodies) = adventkit::day06::build_tree(&orbits);
    assert_eq!(adventkit::day06::count_orbits(&parent_of, &all_bodies), 42);
}

#[test]
fn test_count_transfers() {
    let orbits = orbit_pairs(&[
        "COM)B", "B)C", "C)D", "D)E", "E)F", "B)G", "G)H", "D)I", "E)J", "J)K", "K)L", "K)YOU",
        "I)SAN",
    ]);
    let (parent_of, _all_bodies) = adventkit::day06::build_tree(&orbits);
    assert_eq!(
        adventkit::day06::count_transfers("YOU".to_string(), "SAN".to_string(), &parent_of),
        Some(4)
    );
}

#[test]
fn test_colinear() {
    assert!(Point::colinear_triple(
        &Point { x: 0, y: 0 },
        &Point { x: 1, y: 0 },
        &Point { x: 2, y: 0 }
    ));
    assert!(!Point::colinear_triple(
        &Point { x: 0, y: 0 },
        &Point { x: 1, y: 0 },
        &Point { x: 2, y: 1 }
    ));
}

#[test]
fn day03_test_solve1() {
    fn check_solution(first: &str, second: &str, expected_dist: u32) {
        let m1 = adventkit::day03::string_to_moves(first).expect("first test input should be valid");
        let m2 =
            adventkit::day03::string_to_moves(second).expect("second test input should be valid");
        match adventkit::day03::solve1(&m1, &m2) {
            Some(got) if got == expected_dist => (),
            Some(got) => {
                panic!(
                    "{}, {}: expected {}, got {}",
                    first, second, expected_dist, got,
                );
            }
            None => {
                panic!("{}, {}: test case had no solution", first, second);
            }
        }
    }
    check_solution("R8,U5,L5,D3", "U7,R6,D4,L4", 6);
    check_solution(
        "R75,D30,R83,U83,L12,D49,R71,U7,L72",
        "U62,R66,U55,R34,D71,R55,D58,R83",
        159,
    );
    check_solution(
        "R98,U47,R26,D63,R33,U87,L62,D20,R33,U53,R51",
        "U98,R91,D20,R16,D67,R40,U7,R15,U6,R7",
        135,
    );
}

#[test]
fn wires_cross_by_signal_distance_too() {
    let m1 = adventkit::day03::string_to_moves("R8,U5,L5,D3").expect("valid moves");
    let m2 = adventkit::day03::string_to_moves("U7,R6,D4,L4").expect("valid moves");
    assert_eq!(adventkit::day03::solve2(&m1, &m2), Some(30));
}

fn check_solution1(input: &str, expected_solution: &adventkit::day10::Candidate) {
    let asteroids = adventkit::day10::AsteroidField::parse(input);
    let best = adventkit::day10::solve1(&asteroids);
    assert_eq!(Some(expected_solution), best.as_ref());
}

#[test]
fn day10_test_solve1() {
    check_solution1(
        ".#..#\n.....\n#####\n....#\n...##",
        &adventkit::day10::Candidate {
            p: Point { x: 3, y: 4 },
            visible_count: 8,
        },
    );

    check_solution1(
        "......#.#.\n#..#.#....\n..#######.\n.#.#.###..\n.#..#.....\n..#....#.#\n#..#....#.\n.##.#..###\n##...#..#.\n.#....####\n",
        &adventkit::day10::Candidate {
            p: Point { x: 5, y: 8 },
            visible_count: 33,
        },
    );

    check_solution1(
        "#.#...#.#.\n.###....#.\n.#....#...\n##.#.#.#.#\n....#.#.#.\n.##..###.#\n..#...##..\n..##....##\n......#...\n.####.###.\n",
        &adventkit::day10::Candidate {
            p: Point { x: 1, y: 2 },
            visible_count: 35,
        },
    );

    check_solution1(
        ".#..#..###\n####.###.#\n....###.#.\n..###.##.#\n##.##.#.#.\n....###..#\n..#.#..#.#\n#..#.#.###\n.##...##.#\n.....#.#..\n",
        &adventkit::day10::Candidate {
            p: Point { x: 6, y: 3 },
            visible_count: 41,
        },
    );

    check_solution1(
        ".#..##.###...#######\n##.############..##.\n.#.######.########.#\n.###.#######.####.#.\n#####.##.#.##.###.##\n..#####..#.#########\n####################\n#.####....###.#.#.##\n##.#################\n#####.##.###..####..\n..######..##.#######\n####.##.####...##..#\n.#####..#.######.###\n##...#.##########...\n#.##########.#######\n.####.#.###.###.#.##\n....##.##.###..#####\n.#.#.###########.###\n#.#.#.#####.####.###\n###.##.####.##.#..##\n",
        &adventkit::day10::Candidate {
            p: Point { x: 11, y: 13 },
            visible_count: 210,
        },
    );
}

#[test]
fn test_same_side_of_p() {
    assert!(!Point { x: 5, y: 8 }.same_side_of_p(&Point { x: 1, y: 7 }, &Point { x: 9, y: 9 }));
}

#[test]
fn test_part2() {
    let mut sm = ShipMap::parse(" ##   \n#..## \n#.#..#\n#.X.# \n ###  \n")
        .expect("test input should be valid");
    let oxy = Position { x: 2, y: 3 };
    assert_eq!(part2(&oxy, &mut sm), 4);
}

#[test]
fn robot_paints_and_walks() {
    // paint white, turn left; paint black, turn right; halt
    let program: Vec<Word> = [104, 1, 104, 0, 104, 0, 104, 1, 99]
        .iter()
        .map(|n| Word(*n))
        .collect();
    let start = Panel { x: 0, y: 0 };
    let (finish, surface) =
        run_robot(start, PaintColour::Black, ShipSurface::new(), &program, 1000)
            .expect("the painting program should not fault");
    assert_eq!(finish, Some(Panel { x: -1, y: -1 }));
    assert_eq!(surface.get_painted_panel_count(), 2);
    assert_eq!(
        surface.get_panel_colour(&Panel { x: 0, y: 0 }),
        PaintColour::White
    );
    assert_eq!(
        surface.get_panel_colour(&Panel { x: -1, y: 0 }),
        PaintColour::Black
    );

    // the turn-and-move state machine on its own
    let mut heading = Heading::Up;
    let mut location = Panel { x: 0, y: 0 };
    perform_turn_and_move(Word(1), &mut heading, &mut location).expect("turning never fails");
    assert_eq!(heading, Heading::Right);
    assert_eq!(location, Panel { x: 1, y: 0 });
}

const AMP_STEPS: u64 = 1_000_000;
const AMP_ROUNDS: u64 = 1_000_000;

fn words(input: &[i64]) -> Vec<Word> {
    input.iter().map(|n| Word(*n)).collect()
}

fn check_amplifier_program(
    program: &[i64],
    solver: fn(&[Word], Word) -> Result<(Word, Vec<Word>), day07::AmplifierError>,
    expected_best_output: i64,
    expected_best_phases: &[i64],
) {
    let program = words(program);
    let expected_best_output = Word(expected_best_output);
    let expected_best_phases = words(expected_best_phases);
    match solver(&program, Word(0)) {
        Ok((got_best_output, got_best_phases)) => {
            assert_eq!(
                expected_best_output, got_best_output,
                "incorrect best output"
            );
            assert_eq!(
                expected_best_phases, got_best_phases,
                "incorrect best phases"
            );
        }
        Err(e) => {
            panic!("check_amplifier_program: amplifier failure: {:?}", e);
        }
    }
}

fn chain_solver(program: &[Word], input: Word) -> Result<(Word, Vec<Word>), day07::AmplifierError> {
    day07::solve1(program, input, AMP_STEPS)
}

fn loop_solver(program: &[Word], input: Word) -> Result<(Word, Vec<Word>), day07::AmplifierError> {
    day07::solve2(program, input, AMP_STEPS, AMP_ROUNDS)
}

fn check_amplifier_chain_program(
    program: &[i64],
    expected_best_output: i64,
    expected_best_phases: &[i64],
) {
    check_amplifier_program(program, chain_solver, expected_best_output, expected_best_phases)
}

fn check_amplifier_loop_program(
    program: &[i64],
    expected_best_output: i64,
    expected_best_phases: &[i64],
) {
    check_amplifier_program(program, loop_solver, expected_best_output, expected_best_phases)
}

#[test]
fn test_amplifier_chain_program() {
    check_amplifier_chain_program(
        &[
            3, 15, 3, 16, 1002, 16, 10, 16, 1, 16, 15, 15, 4, 15, 99, 0, 0,
        ],
        43210,
        &[4, 3, 2, 1, 0],
    );
    check_amplifier_chain_program(
        &[
            3, 23, 3, 24, 1002, 24, 10, 24, 1002, 23, -1, 23, 101, 5, 23, 23, 1, 24, 23, 23, 4, 23,
            99, 0, 0,
        ],
        54321,
        &[0, 1, 2, 3, 4],
    );
    check_amplifier_chain_program(
        &[
            3, 31, 3, 32, 1002, 32, 10, 32, 1001, 31, -2, 31, 1007, 31, 0, 33, 1002, 33, 7, 33, 1,
            33, 31, 31, 1, 32, 31, 31, 4, 31, 99, 0, 0, 0,
        ],
        65210,
        &[1, 0, 4, 3, 2],
    );
}

#[test]
fn day07_test_solve2() {
    check_amplifier_loop_program(
        &[
            3, 26, 1001, 26, -4, 26, 3, 27, 1002, 27, 2, 27, 1, 27, 26, 27, 4, 27, 1001, 28, -1,
            28, 1005, 28, 6, 99, 0, 0, 5,
        ],
        139629729,
        &[9, 8, 7, 6, 5],
    );
    check_amplifier_loop_program(
        &[
            3, 52, 1001, 52, -5, 52, 3, 53, 1, 52, 56, 54, 1007, 54, 5, 55, 1005, 55, 26, 1001, 54,
            -5, 54, 1105, 1, 12, 1, 53, 54, 53, 1008, 54, 0, 55, 1001, 55, 1, 55, 2, 53, 55, 53, 4,
            53, 1001, 56, -1, 56, 1005, 56, 6, 99, 0, 0, 0, 0, 10,
        ],
        18216,
        &[9, 7, 8, 5, 6],
    );
}

#[test]
fn test_move_direction_round_trip() {
    let p = Position { x: 3, y: -4 };
    for d in [
        CompassDirection::North,
        CompassDirection::South,
        CompassDirection::East,
        CompassDirection::West,
    ] {
        assert_eq!(p.move_direction(&d).move_direction(&d.reversed()), p);
    }
}

#[test]
fn test_move_direction_near_word_limits() {
    let p = Position { x: i64::MAX - 1, y: i64::MIN + 1 };
    assert_eq!(
        p.move_direction(&CompassDirection::East),
        Position { x: i64::MAX, y: i64::MIN + 1 }
    );
    assert_eq!(
        p.move_direction(&CompassDirection::North),
        Position { x: i64::MAX - 1, y: i64::MIN }
    );
}
