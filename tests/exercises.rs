use rust_practice::generics::{largest_char, largest_i32, Point, Point3};
use rust_practice::guessing::{judge, secret_number, Guess, Verdict};
use rust_practice::numbers::{fibonacci, five};
use rust_practice::ownership::{calculate_length, change, dangle};
use rust_practice::restaurant::{add_to_waitlist, eat_at_restaurant, Appetizer, Breakfast};
use rust_practice::shapes::{area1, Rectangle};

#[test]
fn fibonacci_values() {
    assert_eq!(fibonacci(0), 0);
    assert_eq!(fibonacci(1), 1);
    assert_eq!(fibonacci(2), 1);
    assert_eq!(fibonacci(10), 55);
    assert_eq!(fibonacci(93), 12200160415121876738);
    assert_eq!(five(), 5);
}

#[test]
fn largest_items() {
    assert_eq!(*largest_i32(&[34, 50, 25, 100, 65]), 100);
    assert_eq!(*largest_i32(&[-3]), -3);
    assert_eq!(*largest_i32(&[-7, -2, -9]), -2);
    assert_eq!(*largest_char(&['y', 'm', 'a', 'q']), 'y');
}

#[test]
fn points() {
    let p = Point { x: 5, y: 10 };
    assert_eq!(*p.x(), 5);
    assert_eq!(p.y, 10);
    let p1 = Point3 { x: 5, y: 10 };
    let p2 = Point3 { x: "Hello", y: 'c' };
    let p3 = p1.mixup(p2);
    assert_eq!(p3.x, 5);
    assert_eq!(p3.y, 'c');
}

#[test]
fn rectangle_areas() {
    let r = Rectangle { width: 30, height: 50 };
    assert_eq!(r.area(), 1500);
    assert_eq!(area1(&r), 1500);
    assert_eq!(Rectangle::square(3).area(), 9);
}

#[test]
fn guesses_are_judged() {
    let g = Guess::new(50);
    assert_eq!(g.value(), 50);
    assert_eq!(judge(&g, 70), Verdict::TooSmall);
    assert_eq!(judge(&g, 20), Verdict::TooBig);
    assert_eq!(judge(&g, 50), Verdict::Win);
    assert_eq!(judge(&Guess::new(1), 1), Verdict::Win);
    assert_eq!(judge(&Guess::new(100), 99), Verdict::TooBig);
}

#[test]
fn secrets_lie_in_range_and_vary() {
    let draws: Vec<i32> = (0..300).map(|_| secret_number()).collect();
    assert!(draws.iter().all(|d| (1..=100).contains(d)));
    assert!(draws.iter().any(|d| *d != draws[0]));
}

#[test]
fn strings_borrowed_and_changed() {
    assert_eq!(calculate_length(&"hello".to_string()), 5);
    assert_eq!(calculate_length(&"héllo".to_string()), 6);
    let mut s = String::from("hello");
    change(&mut s);
    assert_eq!(s, "hello, world");
    assert_eq!(dangle(), "hello");
}

#[test]
fn restaurant_orders() {
    add_to_waitlist();
    let meal = Breakfast::summer("Rye");
    assert_eq!(meal.toast, "Rye");
    assert_eq!(meal.seasonal_fruit(), "peaches");
    assert_eq!(eat_at_restaurant(), "I would like Wheat toast please");
    assert_ne!(Appetizer::Soup, Appetizer::Salad);
}
