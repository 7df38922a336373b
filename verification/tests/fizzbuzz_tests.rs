use redisish::fizzbuzz_with_loops;
use redisish::fizzbuzz_with_match;

fn expected_first_hundred() -> Vec<String> {
    let raw = [
        "1", "2", "Fizz", "4", "Buzz", "Fizz", "7", "8", "Fizz", "Buzz", "11", "Fizz", "13", "14",
        "FizzBuzz", "16", "17", "Fizz", "19", "Buzz", "Fizz", "22", "23", "Fizz", "Buzz", "26",
        "Fizz", "28", "29", "FizzBuzz", "31", "32", "Fizz", "34", "Buzz", "Fizz", "37", "38",
        "Fizz", "Buzz", "41", "Fizz", "43", "44", "FizzBuzz", "46", "47", "Fizz", "49", "Buzz",
        "Fizz", "52", "53", "Fizz", "Buzz", "56", "Fizz", "58", "59", "FizzBuzz", "61", "62",
        "Fizz", "64", "Buzz", "Fizz", "67", "68", "Fizz", "Buzz", "71", "Fizz", "73", "74",
        "FizzBuzz", "76", "77", "Fizz", "79", "Buzz", "Fizz", "82", "83", "Fizz", "Buzz", "86",
        "Fizz", "88", "89", "FizzBuzz", "91", "92", "Fizz", "94", "Buzz", "Fizz", "97", "98",
        "Fizz", "Buzz",
    ];
    raw.iter().map(|s| s.to_string()).collect()
}

#[test]
fn fizzbuzz_with_match_test() {
    let x: Vec<String> = fizzbuzz_with_match(100);
    assert_eq!(x, expected_first_hundred());
}

#[test]
fn fizzbuzz_with_loops_test() {
    let x: Vec<String> = fizzbuzz_with_loops(100);
    assert_eq!(x, expected_first_hundred());
    println!("{:?}", x)
}

#[test]
fn fizzbuzz_crosscheck_test() {
    assert_eq!(fizzbuzz_with_loops(10000), fizzbuzz_with_match(10000),);
}
