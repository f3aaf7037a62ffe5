use refgraph::basics::{add_two, greeting, internal_adder};
use refgraph::grep::{search, Config};
use refgraph::inventory::{shoes_in_size, Shoe};
use refgraph::quota::{LimitTracker, Messenger};
use refgraph::restaurant::{fix_incorrect_order, Breakfast};
use refgraph::shapes::Rectangle;
use std::cell::RefCell;

#[test]
fn lib_it_works() {
    let mut meal = Breakfast::summer("Rye");
    assert_eq!(meal.seasonal_fruit, "peaches");
    meal.toast = String::from("Wheat");
    assert_eq!(meal.toast, "Wheat");
    fix_incorrect_order();
}

#[test]
fn test_1() {
    println!("test_1");
}

#[test]
fn iterator_demonstration() {
    let v = vec![1, 2, 3];
    let mut v_iter = v.iter();
    assert_eq!(v_iter.next(), Some(&1));
    assert_eq!(v_iter.next(), Some(&2));
    assert_eq!(v_iter.next(), Some(&3));
    assert_eq!(v_iter.next(), None);
}

#[test]
fn iterator_sum() {
    let v = vec![1, 2, 3];
    let v_iter = v.iter();
    let total: i32 = v_iter.sum();
    assert_eq!(total, 6);
}

#[test]
fn filters_by_size() {
    let shoes = vec![
        Shoe { size: 10, style: String::from("sneaker") },
        Shoe { size: 13, style: String::from("sandal") },
        Shoe { size: 10, style: String::from("boot") },
    ];
    let in_my_size = shoes_in_size(shoes, 10);
    assert_eq!(
        in_my_size,
        vec![
            Shoe { size: 10, style: String::from("sneaker") },
            Shoe { size: 10, style: String::from("boot") },
        ]
    );
}

#[test]
fn test_new() {
    let args = vec![
        String::from("mini_grep"),
        String::from("searchstring"),
        String::from("example-filename.txt"),
    ];
    let conf = Config::new(&args, None).unwrap();
    assert_eq!(conf.query, "searchstring");
    assert_eq!(conf.path, "example-filename.txt");
}

#[test]
#[should_panic(expected = "need 2 arguments, [query] [path]")]
fn test_new_with_invalid_args() {
    let args = vec![String::from("mini_grep"), String::from("searchstring")];
    let _conf = Config::new(&args, None).map_err(|e| e.message()).unwrap();
}

#[test]
fn test_search() {
    let query = "duct";
    let contents = "\
Rust:
safe, fast, productive.
Pick three.";
    let results = search(true, query, contents).unwrap();
    assert_eq!(results, vec!["safe, fast, productive."]);
}

struct MockMessenger {
    sent_messages: RefCell<Vec<String>>,
}

impl MockMessenger {
    fn new() -> MockMessenger {
        MockMessenger { sent_messages: RefCell::new(vec![]) }
    }
}

impl Messenger for MockMessenger {
    fn send(&self, msg: &str) {
        self.sent_messages.borrow_mut().push(String::from(msg));
    }
}

#[test]
fn it_sends_an_over_75_percent_warning_message() {
    let mock_messenger = MockMessenger::new();
    let mut limit_tracker = LimitTracker::new(&mock_messenger, 100);
    limit_tracker.set_value(80);
    limit_tracker.set_value(81);
    limit_tracker.set_value(82);
    limit_tracker.set_value(83);
    assert_eq!(mock_messenger.sent_messages.borrow().len(), 4);
    assert_eq!(
        mock_messenger.sent_messages.borrow()[0],
        "Warning: You've used up over 75% of your quota! You used 80 of 100 units"
    );
    println!("{:?}", mock_messenger.sent_messages.borrow());
}

#[test]
fn it_works() {
    let result = refgraph::basics::add(2, 2);
    assert_eq!(result, 4);
}

#[test]
fn exploration() {
    assert_eq!(2 + 2, 4);
}

#[test]
#[should_panic(expected = "Make this test fail")]
fn another() {
    panic!("Make this test fail");
}

#[test]
fn larger_can_hold_smaller() {
    let larger = Rectangle { width: 8, height: 7 };
    let smaller = Rectangle { width: 5, height: 1 };
    assert!(larger.can_hold(&smaller));
}

#[test]
fn smaller_cannot_hold_larger() {
    let larger = Rectangle { width: 8, height: 7 };
    let smaller = Rectangle { width: 5, height: 1 };
    assert!(!smaller.can_hold(&larger));
}

#[test]
fn greeting_contains_name() {
    let result = greeting("Carol");
    assert!(
        result.contains("Carol"),
        "Greeting did not contain name, value was `{}`",
        result
    );
}

#[test]
fn it_works2() -> Result<(), String> {
    if 2 + 2 == 4 {
        Ok(())
    } else {
        Err(String::from("two plus two does not equal four"))
    }
}

#[test]
fn internal() {
    assert_eq!(4, internal_adder(2, 2));
}

#[test]
fn it_adds_two() {
    assert_eq!(4, add_two(2));
}
