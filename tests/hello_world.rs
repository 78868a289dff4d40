use soroban_ledger::HelloWorld;

#[test]
fn test() {
    let words = HelloWorld::hello(String::from("Dev"));
    assert_eq!(words, vec![String::from("Hello"), String::from("Dev")]);
}

#[test]
fn test_greet() {
    let greeting = HelloWorld::greet(String::from("World"));
    assert_eq!(greeting, String::from("Hello"));
}

#[test]
fn test_version() {
    let version = HelloWorld::version();
    assert_eq!(version, 1);
}
