use rust_practice::adder::{add, greeting, internal_adder};
use rust_practice::shapes::Rectangle;

#[test]
fn exploration() {
    let result = add(2, 2);
    assert_eq!(result, 4);
}

#[test]
fn it_works() -> Result<(), String> {
    let result = add(2, 2);

    if result == 4 {
        Ok(())
    } else {
        Err(String::from("The Result is not correct"))
    }
}

#[test]
fn internal() {
    let result = internal_adder(2, 2);
    assert_eq!(result, 4);
}

#[test]
fn larger_can_hold_smaller() {
    let larger = Rectangle { width: 8, height: 7 };
    let smaller = Rectangle { width: 5, height: 1 };
    assert!(larger.can_hold(&smaller));
}

#[test]
fn smaller_cannot_hold_larger() {
    let larger = Rectangle { width: 8, height: 7 };
    let smaller = Rectangle { width: 5, height: 1 };
    assert!(!smaller.can_hold(&larger));
}

#[test]
fn greeting_contains_name() {
    let result = greeting("Name");
    assert!(result.contains("Name"), "Greeting did not contain name, value was {result}")
}

#[test]
fn it_adds_two() {
    let result = add(2, 2);
    assert_eq!(result, 4);
}

#[test]
fn greeting_is_exact() {
    assert_eq!(greeting("Ferris"), "Hello! Ferris");
    assert_eq!(greeting(""), "Hello! ");
}

#[test]
fn add_reaches_the_largest_value() {
    assert_eq!(add(usize::MAX - 1, 1), usize::MAX);
    assert_eq!(add(0, 0), 0);
}

#[test]
fn equal_sides_cannot_hold() {
    let a = Rectangle { width: 5, height: 5 };
    let b = Rectangle::square(5);
    assert!(!a.can_hold(&b));
    assert_eq!(b, Rectangle { width: 5, height: 5 });
}
