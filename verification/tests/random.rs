use wallswitch::{
    get_random_integer, get_random_integer_v2, rand, random_integer_with, shuffle, shuffle_with,
    WallSwitchError, WallSwitchResult,
};

#[test]
fn vec_shuffle() {
    let mut vec: Vec<u32> = (1..=100).collect();
    shuffle(&mut vec);

    println!("vec: {:?}", vec);
    assert_eq!(vec.len(), 100);
}

#[test]
fn random_integers_v1() {
    let value: u64 = get_random_integer(1, 20);

    println!("integer: {:?}", value);

    let integers: Vec<u64> = (0..100).map(|_| get_random_integer(1, 20)).collect();

    println!("integers: {:?}", integers);

    let condition_a = integers.iter().min() >= Some(&1);
    let condition_b = integers.iter().max() <= Some(&20);

    assert!(condition_a);
    assert!(condition_b);
    assert_eq!(integers.len(), 100);
}

#[test]
fn random_integers_v2() -> WallSwitchResult<()> {
    let value: u64 = get_random_integer_v2(1, 20)?;

    println!("integer: {:?}", value);

    let integers: Vec<u64> = (0..100)
        .map(|_| get_random_integer_v2(1, 20))
        .collect::<Result<Vec<u64>, _>>()?;

    println!("integers: {:?}", integers);

    let condition_a = integers.iter().min() >= Some(&1);
    let condition_b = integers.iter().max() <= Some(&20);

    assert!(condition_a);
    assert!(condition_b);
    assert_eq!(integers.len(), 100);

    Ok(())
}

#[test]
fn random_integers_v3() -> WallSwitchResult<()> {
    let result = get_random_integer_v2(21, 20).map_err(|err| {
        println!("{}", err.to_string());
        err
    });
    assert!(result.is_err());

    let error = result.unwrap_err();
    println!("error: {error:?}");
    assert!(matches!(error, WallSwitchError::MinMax { min: 21, max: 20 }));

    Ok(())
}

#[test]
fn shuffle_keeps_every_element() {
    let mut vec: Vec<u32> = (1..=100).collect();
    shuffle(&mut vec);
    let mut sorted = vec.clone();
    sorted.sort();
    assert_eq!(sorted, (1..=100).collect::<Vec<u32>>());
}

#[test]
fn shuffle_of_nothing_and_of_one() {
    let mut empty: Vec<u32> = Vec::new();
    shuffle(&mut empty);
    assert!(empty.is_empty());

    let mut one = vec!["only"];
    shuffle(&mut one);
    assert_eq!(one, ["only"]);
}

#[test]
fn shuffle_with_follows_the_draws() {
    // Step i exchanges position i with position i + draw % (n - i).
    let mut strings = vec!["abc", "foo", "bar", "baz"];
    shuffle_with(&mut strings, &[0, 0, 0]);
    assert_eq!(strings, ["abc", "foo", "bar", "baz"]);

    let mut strings = vec!["abc", "foo", "bar", "baz"];
    shuffle_with(&mut strings, &[3, 1, 5]);
    // 0 <-> 0 + 3 % 4 = 3; 1 <-> 1 + 1 % 3 = 2; 2 <-> 2 + 5 % 2 = 3
    assert_eq!(strings, ["baz", "bar", "abc", "foo"]);
}

#[test]
fn random_integer_with_is_the_remainder_above_min() {
    assert_eq!(random_integer_with(1, 20, 0), 1);
    assert_eq!(random_integer_with(1, 20, 19), 20);
    assert_eq!(random_integer_with(1, 20, 20), 1);
    assert_eq!(random_integer_with(1, 20, 45), 6);
    assert_eq!(random_integer_with(7, 7, 12345), 7);
    assert_eq!(random_integer_with(0, u64::MAX, 12345), 12345);
    assert_eq!(random_integer_with(u64::MAX - 1, u64::MAX, 3), u64::MAX);
}

#[test]
fn rand_differs_between_calls() {
    let draws: Vec<u64> = (0..16).map(|_| rand()).collect();
    assert!(draws.iter().any(|draw| *draw != draws[0]));
}
