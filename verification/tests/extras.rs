use refgraph::advanced::{outline, split_at_mut, Counter, Counter2, Meters, Millimeters, NewInt32, Point, Tally};
use refgraph::averaged::{Average, AveragedCollection};
use refgraph::basics::{five, plus_one};
use refgraph::cell::{BorrowConflict, MutCell};
use refgraph::chance::one_to_hundred;
use refgraph::decimal::{to_decimal, to_signed_decimal};
use refgraph::generics::{get_largest, get_largest_char, get_largest_i32, ImportantExcerpt, Pair, Point2};
use refgraph::grep::{filter_search, ignore_case_from, lines, search, Config, GrepError};
use refgraph::guess::{judge, parse_u32, Game, Guess, Reply, Verdict};
use refgraph::inventory::{Inventory, ShirtColor};
use refgraph::messages::{location_line, Color, Message, Message2};
use refgraph::mybox::{hello, MyBox};
use refgraph::ownership::{
    calculate_length, calculate_length_2, change, first_word_2, give_ownership, no_dangle, take_and_give_back,
};
use refgraph::post::{Post, PostState};
use refgraph::quota::{message_for, usage, Usage};
use refgraph::screen::{format_list, Button, Draw, Screen, SelectBox};
use refgraph::shapes::{area, area_2, Rectangle};
use refgraph::summary::{notice, returns_summarizable, NewsArticle, NewsContent, Summary, Tweet};
use refgraph::text::{
    chars_of, contains, first_word, is_white_space, last_char_of_first_line, longest, same_text, trim,
};
use refgraph::user::build_user;

#[test]
fn small_numbers() {
    assert_eq!(five(), 5);
    assert_eq!(plus_one(0), 1);
    assert_eq!(plus_one(-1), 0);
    assert_eq!(NewInt32(7).0, 7);
}

#[test]
fn rectangle_areas() {
    let rect = Rectangle { width: 30, height: 50 };
    assert_eq!(rect.area(), 1500);
    assert_eq!(rect.checked_area(), Some(1500));
    assert_eq!(area(30, 50), 1500);
    assert_eq!(area_2((30, 50)), 1500);
    let square = Rectangle::square(3);
    assert_eq!((square.width, square.height), (3, 3));
    let huge = Rectangle { width: 65536, height: 65536 };
    assert_eq!(huge.checked_area(), None);
    let edge = Rectangle { width: 65535, height: 65537 };
    assert_eq!(edge.checked_area(), Some(4294967295));
}

#[test]
fn can_hold_needs_room_on_both_sides() {
    let r1 = Rectangle { width: 30, height: 50 };
    let r2 = Rectangle { width: 10, height: 40 };
    let r3 = Rectangle { width: 60, height: 45 };
    assert!(r1.can_hold(&r2));
    assert!(!r1.can_hold(&r3));
    assert!(!r1.can_hold(&r1));
}

#[test]
fn first_word_stops_at_the_first_space() {
    assert_eq!(first_word("hello world"), "hello");
    assert_eq!(first_word("hello"), "hello");
    assert_eq!(first_word(" hello"), "");
    assert_eq!(first_word(""), "");
    assert_eq!(first_word("h\u{e9}llo w\u{f6}rld"), "h\u{e9}llo");
    assert_eq!(first_word("\u{4f60}\u{597d} \u{4e16}\u{754c}"), "\u{4f60}\u{597d}");
    assert_eq!(first_word_2("one two three"), "one");
    assert_eq!(refgraph::ownership::first_word(&String::from("hello world")), 5);
    assert_eq!(refgraph::ownership::first_word(&String::from("hello")), 5);
}

#[test]
fn longest_prefers_the_second_on_a_tie() {
    assert_eq!(longest("abcd", "xyz"), "abcd");
    assert_eq!(longest("ab", "xyz"), "xyz");
    let a = String::from("same");
    let b = String::from("size");
    assert_eq!(longest(&a, &b), "size");
}

#[test]
fn last_char_of_the_first_line() {
    assert_eq!(last_char_of_first_line("abc\ndef"), Some('c'));
    assert_eq!(last_char_of_first_line("abc"), Some('c'));
    assert_eq!(last_char_of_first_line("ab\r\ncd"), Some('b'));
    assert_eq!(last_char_of_first_line("ab\u{e9}\ncd"), Some('\u{e9}'));
    assert_eq!(last_char_of_first_line(""), None);
    assert_eq!(last_char_of_first_line("\nabc"), None);
}

#[test]
fn contains_finds_a_text_anywhere() {
    assert!(contains("safe, fast, productive.", "duct"));
    assert!(contains("abc", ""));
    assert!(contains("", ""));
    assert!(!contains("", "a"));
    assert!(!contains("abc", "abcd"));
    assert!(contains("aab", "ab"));
    assert!(!contains("abab", "aba "));
    assert!(same_text("True", "True"));
    assert!(!same_text("True", "true"));
}

#[test]
fn white_space_is_what_the_standard_library_takes_for_it() {
    for code in 0..=0x10ffffu32 {
        if let Some(c) = char::from_u32(code) {
            assert_eq!(is_white_space(c), c.is_whitespace(), "U+{:04X}", code);
        }
    }
    assert!(is_white_space(' '));
    assert!(is_white_space('\u{3000}'));
    assert!(!is_white_space('\u{200b}'));
    assert!(!is_white_space('\u{180e}'));
    assert!(!is_white_space('a'));
}

#[test]
fn trim_drops_the_white_space_around_a_text() {
    let samples = [
        "",
        " ",
        "a",
        "  a b  ",
        "\t\n x \r\n",
        "\u{a0}x\u{3000}",
        "\u{2028}\u{2029}",
        "\u{200b}x\u{200b}",
        " \u{e9}t\u{e9} ",
        "no space",
        "\u{85}mid dle\u{1680}",
    ];
    for text in samples {
        assert_eq!(trim(text), text.trim(), "{:?}", text);
    }
    assert_eq!(trim("  42 \n"), "42");
    assert_eq!(trim(" \t "), "");
    assert_eq!(chars_of("h\u{e9}!"), vec!['h', '\u{e9}', '!']);
    assert!(chars_of("").is_empty());
}

#[test]
fn lines_are_cut_as_the_standard_library_cuts_them() {
    let samples = [
        "",
        "a",
        "a\n",
        "a\nb",
        "a\r\nb\r\n",
        "a\r",
        "\n",
        "\n\n",
        "a\n\nb",
        "\r\n",
        "a\rb\nc",
        "x\r\r\ny",
        "h\u{e9}\nw\u{f6}\n",
    ];
    for text in samples {
        let expected: Vec<&str> = text.lines().collect();
        assert_eq!(lines(text), expected);
    }
    assert_eq!(lines("a\nb\r\n\nc"), vec!["a", "b", "", "c"]);
}

#[test]
fn search_heeds_case_unless_told_otherwise() {
    let contents = "Rust:\nsafe, fast, productive.\nPick three.\nTrust me.";
    assert_eq!(search(false, "rust", contents).unwrap(), vec!["Trust me."]);
    assert_eq!(search(true, "rUsT", contents).unwrap(), vec!["Rust:", "Trust me."]);
    assert_eq!(search(true, "DUCT", contents).unwrap(), vec!["safe, fast, productive."]);
    assert!(search(false, "DUCT", contents).unwrap().is_empty());
    assert_eq!(search(false, "", "a\nb").unwrap(), vec!["a", "b"]);
    assert!(search(false, "a", "").unwrap().is_empty());
}

#[test]
fn filter_search_agrees_with_search() {
    let contents = "Rust:\r\nsafe, fast, productive.\r\nPick three.\nTrust me.\n";
    for ignore_case in [false, true] {
        for query in ["rust", "RUST", "t", "", "three.", "nothing"] {
            assert_eq!(
                filter_search(ignore_case, query, contents).unwrap(),
                search(ignore_case, query, contents).unwrap()
            );
        }
    }
    assert_eq!(filter_search(true, "PICK", contents).unwrap(), vec!["Pick three."]);
}

#[test]
fn config_reads_the_case_switch() {
    assert!(ignore_case_from(Some("1")));
    assert!(ignore_case_from(Some("true")));
    assert!(ignore_case_from(Some("TRUE")));
    assert!(ignore_case_from(Some("True")));
    assert!(!ignore_case_from(Some("yes")));
    assert!(!ignore_case_from(Some("")));
    assert!(!ignore_case_from(Some("tRUE")));
    assert!(!ignore_case_from(None));
    let args = vec![String::from("prog"), String::from("q"), String::from("p")];
    assert!(Config::new(&args, Some("1")).unwrap().ignore_case);
    assert!(!Config::new(&args, Some("0")).unwrap().ignore_case);
}

#[test]
fn config_refuses_a_wrong_number_of_arguments() {
    let two = vec![String::from("prog"), String::from("q")];
    assert_eq!(Config::new(&two, None).err(), Some(GrepError::InvalidInput));
    let four = vec![String::from("prog"), String::from("q"), String::from("p"), String::from("x")];
    assert_eq!(Config::new(&four, None).err(), Some(GrepError::InvalidInput));
    assert_eq!(Config::new(&[], None).err(), Some(GrepError::InvalidInput));
    assert_eq!(GrepError::InvalidInput.message(), "need 2 arguments, [query] [path]");
}

#[test]
fn iter_new_takes_no_argument_at_all() {
    let conf = Config::iter_new(vec![], Some("true")).unwrap();
    assert_eq!(conf.query, "");
    assert_eq!(conf.path, "");
    assert!(conf.ignore_case);
    let args = vec![String::from("prog"), String::from("q"), String::from("p")];
    assert_eq!(Config::iter_new(args, None).err(), Some(GrepError::InvalidInput));
    assert_eq!(Config::iter_new(vec![String::from("prog")], None).err(), Some(GrepError::InvalidInput));
}

#[test]
fn usage_levels_at_their_borders() {
    assert_eq!(usage(0, 100), Usage::Fine);
    assert_eq!(usage(74, 100), Usage::Fine);
    assert_eq!(usage(75, 100), Usage::Warning);
    assert_eq!(usage(89, 100), Usage::Warning);
    assert_eq!(usage(90, 100), Usage::Urgent);
    assert_eq!(usage(99, 100), Usage::Urgent);
    assert_eq!(usage(100, 100), Usage::Over);
    assert_eq!(usage(101, 100), Usage::Over);
    assert_eq!(usage(0, 0), Usage::Fine);
    assert_eq!(usage(1, 0), Usage::Over);
    assert_eq!(usage(3, 4), Usage::Warning);
    assert_eq!(usage(9, 10), Usage::Urgent);
    assert_eq!(usage(usize::MAX, usize::MAX), Usage::Over);
    assert_eq!(usage(usize::MAX - 1, usize::MAX), Usage::Urgent);
}

#[test]
fn usage_levels_agree_with_the_ratio_in_floating_point() {
    for max in 0..=60usize {
        for value in 0..=80usize {
            let ratio = value as f64 / max as f64;
            let expected = if ratio >= 1.0 {
                Usage::Over
            } else if ratio >= 0.9 {
                Usage::Urgent
            } else if ratio >= 0.75 {
                Usage::Warning
            } else {
                Usage::Fine
            };
            assert_eq!(usage(value, max), expected, "{} of {}", value, max);
        }
    }
}

#[test]
fn quota_messages_word_for_word() {
    assert_eq!(message_for(10, 100), None);
    assert_eq!(
        message_for(80, 100),
        Some(String::from("Warning: You've used up over 75% of your quota! You used 80 of 100 units"))
    );
    assert_eq!(
        message_for(95, 100),
        Some(String::from("Urgent warning: You've used up over 90% of your quota! You used 95 of 100 units"))
    );
    assert_eq!(
        message_for(120, 100),
        Some(String::from("Error: You are over your quota! You used 120 of 100 units"))
    );
    assert_eq!(message_for(0, 0), None);
    assert_eq!(message_for(5, 0), Some(String::from("Error: You are over your quota! You used 5 of 0 units")));
}

#[test]
fn decimal_digits() {
    assert_eq!(to_decimal(0), "0");
    assert_eq!(to_decimal(7), "7");
    assert_eq!(to_decimal(10), "10");
    assert_eq!(to_decimal(909), "909");
    assert_eq!(to_decimal(12345), "12345");
    assert_eq!(to_decimal(1000000), "1000000");
    assert_eq!(to_decimal(usize::MAX), usize::MAX.to_string());
}

#[test]
fn signed_decimal_digits() {
    assert_eq!(to_signed_decimal(0), "0");
    assert_eq!(to_signed_decimal(-1), "-1");
    assert_eq!(to_signed_decimal(160), "160");
    assert_eq!(to_signed_decimal(i32::MAX), "2147483647");
    assert_eq!(to_signed_decimal(i32::MIN), "-2147483648");
}

#[test]
fn messages_say_what_they_are() {
    assert_eq!(Message::Quit.describe(), "quit");
    assert_eq!(Message::Move { x: 3, y: -10 }.describe(), "move to (3, -10)");
    assert_eq!(Message::Write(String::from("hello")).describe(), "write hello");
    assert_eq!(Message::ChangeColor(0, 160, 255).describe(), "change color to (0, 160, 255)");
    assert_eq!(
        Message2::ChangeColor(Color::Hsv(0, 160, 255)).describe(),
        Some(String::from("change color to hsv(0, 160, 255)"))
    );
    assert_eq!(
        Message2::ChangeColor(Color::Rgb(1, 2, 3)).describe(),
        Some(String::from("change color to rgb(1, 2, 3)"))
    );
    assert_eq!(Message2::Quit.describe(), None);
    assert_eq!(Message2::Write(String::from("x")).describe(), None);
    assert_eq!(location_line(&(3, 5)), "current location: (3, 5)");
}

#[test]
fn my_box_hands_out_what_it_holds() {
    let x = 5;
    let y = MyBox::new(x);
    assert_eq!(5, *y);
    let m = MyBox::new(String::from("Rust"));
    assert_eq!(hello(&m), "Hello, Rust!");
    assert_eq!(hello(&(*m)[..]), "Hello, Rust!");
    assert_eq!(m.0, "Rust");
}

#[test]
fn post_shows_its_text_only_when_published() {
    let mut post = Post::new();
    assert_eq!(post.status(), PostState::Draft);
    post.add_text("I ate a salad for lunch today");
    assert_eq!(post.content(), "");
    post.approve();
    assert_eq!(post.status(), PostState::Draft);
    post.request_review();
    assert_eq!(post.status(), PostState::PendingReview);
    assert_eq!(post.content(), "");
    post.add_text(" ignored");
    post.request_review();
    assert_eq!(post.status(), PostState::PendingReview);
    post.approve();
    assert_eq!(post.status(), PostState::Published);
    assert_eq!(post.content(), "I ate a salad for lunch today");
    post.request_review();
    post.approve();
    assert_eq!(post.status(), PostState::Published);
    post.add_text(" and soup");
    assert_eq!(post.status(), PostState::Draft);
    assert_eq!(post.content(), "");
    post.request_review();
    post.approve();
    assert_eq!(post.content(), "I ate a salad for lunch today and soup");
}

#[test]
fn summaries() {
    let article = NewsArticle {
        headline: String::from("Penguins win the Stanley Cup Championship!"),
        location: String::from("Pittsburgh, PA, USA"),
        author: String::from("Iceburgh"),
        content: String::from("The Pittsburgh Penguins once again are the best hockey team in the NHL."),
    };
    assert_eq!(article.summarize(), "Penguins win the Stanley Cup Championship!, by Iceburgh (Pittsburgh, PA, USA)");
    assert_eq!(article.summarize_author(), "@Iceburgh");
    let tweet = returns_summarizable();
    assert_eq!(tweet.summarize(), "horse_ebooks: of course, as you probably already know, people");
    assert_eq!(tweet.summarize_author(), "@horse_ebooks");
    assert_eq!(notice(&tweet), "Breaking news! horse_ebooks: of course, as you probably already know, people");
    let content = NewsContent {
        headline: String::from("h"),
        location: String::from("l"),
        author: String::from("a"),
        content: String::from("c"),
    };
    assert_eq!(content.summarize(), "(Read more...)");
    assert_eq!(content.summarize_author(), "@a");
    assert_eq!(notice(&content), "Breaking news! (Read more...)");
    let short = Tweet { username: String::from("u"), content: String::from("c"), reply: true, retweet: false };
    assert_eq!(notice(&short), "Breaking news! u: c");
}

#[test]
fn screen_draws_its_components_in_order() {
    let screen = Screen {
        components: vec![
            Box::new(SelectBox {
                width: 75,
                height: 10,
                options: vec![String::from("Yes"), String::from("Maybe"), String::from("No")],
            }),
            Box::new(Button { width: 50, height: 10, label: String::from("OK") }),
        ],
    };
    assert_eq!(
        screen.run(),
        vec![
            String::from("select box draw, width: 75, height: 10, options: [\"Yes\", \"Maybe\", \"No\"]"),
            String::from("button draw, width: 50, height: 10, label: OK"),
        ]
    );
    for list in [
        vec![],
        vec![String::from("one")],
        vec![String::from("a \"quote\""), String::from("tab\there"), String::from("back\\slash"), String::new()],
        vec![String::from("h\u{e9}"), String::from("line\nbreak")],
    ] {
        assert_eq!(format_list(&list), format!("{:?}", list));
    }
    let lone = Button { width: 0, height: 4294967295, label: String::new() };
    assert_eq!(lone.draw(), "button draw, width: 0, height: 4294967295, label: ");
    assert!(Screen { components: vec![] }.run().is_empty());
}

#[test]
fn giveaway_follows_the_preference_or_the_stock() {
    let store = Inventory { shirts: vec![ShirtColor::Blue, ShirtColor::Red, ShirtColor::Blue] };
    assert_eq!(store.giveaway(Some(ShirtColor::Red)), ShirtColor::Red);
    assert_eq!(store.giveaway(None), ShirtColor::Blue);
    assert_eq!(store.most_stocked(), ShirtColor::Blue);
    let reds = Inventory { shirts: vec![ShirtColor::Red, ShirtColor::Red, ShirtColor::Blue] };
    assert_eq!(reds.most_stocked(), ShirtColor::Red);
    assert_eq!(reds.giveaway(Some(ShirtColor::Blue)), ShirtColor::Blue);
    let tie = Inventory { shirts: vec![ShirtColor::Red, ShirtColor::Blue] };
    assert_eq!(tie.most_stocked(), ShirtColor::Blue);
    assert_eq!(Inventory { shirts: vec![] }.giveaway(None), ShirtColor::Blue);
}

#[test]
fn largest_of_a_list() {
    assert_eq!(get_largest_i32(&[34, 50, 25, 100, 65]), 100);
    assert_eq!(get_largest_i32(&[102, 34, 6000, 89, 54, 2, 43, 8]), 6000);
    assert_eq!(get_largest_i32(&[-5]), -5);
    assert_eq!(get_largest_char(&['y', 'm', 'a', 'q']), 'y');
    assert_eq!(*get_largest(&[34, 50, 25, 100, 65]), 100);
    assert_eq!(*get_largest(&['y', 'm', 'a', 'q']), 'y');
    assert_eq!(*get_largest(&[34.0, 50.0, 25.0, 100.0, 65.0]), 100.0);
    assert_eq!(*get_largest(&["pear", "apple", "plum"]), "plum");
    let first_of_equals = [(1, 'a'), (1, 'a')];
    assert!(std::ptr::eq(get_largest(&first_of_equals), &first_of_equals[0]));
}

#[test]
fn generic_containers() {
    let p1 = Point2 { x: 5, y: 10.4 };
    let p2 = Point2 { x: "Hello", y: 'c' };
    let p3 = p1.mix(p2);
    assert_eq!((p3.x, p3.y), (5, 'c'));
    let point = refgraph::generics::Point { x: 5, y: 10 };
    assert_eq!(*point.x(), 5);
    let pair = Pair::new(3, 4);
    assert_eq!((*pair.x(), *pair.y()), (3, 4));
    let novel = String::from("Call me Ishmael. Some years ago...");
    let excerpt = ImportantExcerpt { part: novel.split('.').next().unwrap() };
    assert_eq!(excerpt.level(), 3);
    assert_eq!(excerpt.announce_and_return_part("listen"), "Call me Ishmael");
}

#[test]
fn texts_change_hands() {
    let s1 = give_ownership();
    assert_eq!(s1, "hello");
    let s2 = take_and_give_back(s1);
    assert_eq!(s2, "hello");
    let (s3, len) = calculate_length(s2);
    assert_eq!((s3.as_str(), len), ("hello", 5));
    assert_eq!(calculate_length_2(&String::from("h\u{e9}")), 3);
    let mut s = String::from("hello");
    change(&mut s);
    assert_eq!(s, "hello, world");
    assert_eq!(no_dangle(), "hello");
}

#[test]
fn guesses_lie_between_1_and_100() {
    assert_eq!(Guess::new(50).value(), 50);
    assert_eq!(Guess::new(1).value(), 1);
    assert_eq!(Guess::new(100).value(), 100);
    assert!(Guess::checked(0).is_none());
    assert!(Guess::checked(101).is_none());
    assert!(Guess::checked(-3).is_none());
    assert_eq!(Guess::checked(1).map(|g| g.value()), Some(1));
    assert_eq!(Guess::checked(100).map(|g| g.value()), Some(100));
}

#[test]
fn numbers_are_read_as_the_standard_library_reads_them() {
    let samples = [
        "42", "+7", "", "+", "-1", "4294967295", "4294967296", "12a", "007", "++1", " 1", "1 ", "0", "+0",
        "99999999999999999999", "1_000", "\u{665}",
    ];
    for text in samples {
        assert_eq!(parse_u32(text), text.parse::<u32>().ok(), "{:?}", text);
    }
    assert_eq!(parse_u32("42"), Some(42));
    assert_eq!(parse_u32("4294967295"), Some(4294967295));
    assert_eq!(parse_u32("4294967296"), None);
}

#[test]
fn game_tells_how_a_guess_compares() {
    assert_eq!(judge(3, 5), Verdict::TooSmall);
    assert_eq!(judge(7, 5), Verdict::TooBig);
    assert_eq!(judge(5, 5), Verdict::Win);
    let mut game = Game::with_secret(50);
    assert_eq!(game.secret_number(), 50);
    assert_eq!(game.turn("abc\n"), Reply::Unreadable);
    assert_eq!(game.turn("  30 \n"), Reply::Told { guess: 30, verdict: Verdict::TooSmall });
    assert_eq!(game.turn("70\r\n"), Reply::Told { guess: 70, verdict: Verdict::TooBig });
    assert!(!game.is_won());
    assert_eq!(game.turn("\t50\n"), Reply::Told { guess: 50, verdict: Verdict::Win });
    assert!(game.is_won());
    assert_eq!(game.answer(Some(1)), Reply::Told { guess: 1, verdict: Verdict::TooSmall });
    assert!(game.is_won());
    assert_eq!(game.answer(None), Reply::Unreadable);
}

#[test]
fn secret_is_drawn_between_1_and_100() {
    let mut seen_different = false;
    let first = Game::start().secret_number();
    for _ in 0..500 {
        let game = Game::start();
        let secret = game.secret_number();
        assert!((1..=100).contains(&secret));
        assert!(!game.is_won());
        seen_different = seen_different || secret != first;
    }
    assert!(seen_different);
    for _ in 0..500 {
        assert!((1..=100).contains(&one_to_hundred()));
    }
}

#[test]
fn sources_of_ones() {
    let mut counter = Counter {};
    assert_eq!(refgraph::advanced::Iterator::next(&mut counter), Some(1));
    assert_eq!(refgraph::advanced::Iterator::next(&mut counter), Some(1));
    let mut both = Counter2 {};
    let number: Option<u32> = refgraph::advanced::Iterator2::next(&mut both);
    let text: Option<String> = refgraph::advanced::Iterator2::next(&mut both);
    assert_eq!(number, Some(1));
    assert_eq!(text, Some(String::from("1")));
}

#[test]
fn points_and_lengths_add_up() {
    let sum = Point { x: 1, y: 0 } + Point { x: 2, y: 3 };
    assert_eq!(sum, Point { x: 3, y: 3 });
    assert_eq!(Millimeters(500) + Meters(2), Millimeters(2500));
    let mut tally = Tally { count: 0 };
    tally.add_to_count(3);
    tally.add_to_count(4);
    assert_eq!(tally.count, 7);
}

#[test]
fn slice_is_cut_in_two_writable_parts() {
    let mut values = [1, 2, 3, 4, 5, 6];
    let (left, right) = split_at_mut(&mut values, 3);
    assert_eq!(left, [1, 2, 3]);
    assert_eq!(right, [4, 5, 6]);
    left[0] = 10;
    right[2] = 60;
    assert_eq!(values, [10, 2, 3, 4, 5, 60]);
    let (none, all) = split_at_mut(&mut values, 0);
    assert!(none.is_empty());
    assert_eq!(all.len(), 6);
    let (all, none) = split_at_mut(&mut values, 6);
    assert_eq!(all.len(), 6);
    assert!(none.is_empty());
}

#[test]
fn outline_frames_a_text() {
    assert_eq!(
        outline("(1, 0)"),
        vec![
            String::from("**********"),
            String::from("*        *"),
            String::from("* (1, 0) *"),
            String::from("*        *"),
            String::from("**********"),
        ]
    );
    assert_eq!(outline(""), vec!["****", "*  *", "*  *", "*  *", "****"]);
}

#[test]
fn averaged_collection_keeps_its_average_up_to_date() {
    let mut numbers = AveragedCollection::new();
    assert_eq!(numbers.average(), Average { total: 0, count: 0 });
    assert_eq!(numbers.remove(), None);
    numbers.add(1);
    numbers.add(2);
    numbers.add(6);
    assert_eq!(numbers.average(), Average { total: 9, count: 3 });
    assert_eq!(numbers.remove(), Some(6));
    assert_eq!(numbers.average(), Average { total: 3, count: 2 });
    assert_eq!(numbers.remove(), Some(2));
    assert_eq!(numbers.average(), Average { total: 1, count: 1 });
    // the last number goes, the average on record stays
    assert_eq!(numbers.remove(), Some(1));
    assert_eq!(numbers.average(), Average { total: 1, count: 1 });
    assert_eq!(numbers.remove(), None);
    numbers.add(i32::MIN);
    numbers.add(i32::MIN);
    assert_eq!(numbers.average(), Average { total: -4294967296, count: 2 });
}

#[test]
fn new_users_are_active() {
    let user = build_user(String::from("user2"));
    assert_eq!(user.username, "user2");
    assert_eq!(user.email, "user2@example.com");
    assert!(user.active);
    assert_eq!(user.sign_in_count, 2);
}

#[test]
fn message_colours_are_read_as_rgb() {
    match Message::ChangeColor(0, 160, 255).with_model() {
        Message2::ChangeColor(Color::Rgb(r, g, b)) => assert_eq!((r, g, b), (0, 160, 255)),
        _ => panic!("colour was lost"),
    }
    assert!(matches!(Message::Quit.with_model(), Message2::Quit));
    assert!(matches!(Message::Move { x: 1, y: -2 }.with_model(), Message2::Move { x: 1, y: -2 }));
    match Message::Write(String::from("hi")).with_model() {
        Message2::Write(text) => assert_eq!(text, "hi"),
        _ => panic!("text was lost"),
    }
}

#[test]
fn with_borrow_gives_the_borrow_back() {
    let mut cell = MutCell::new(String::from("abc"));
    assert_eq!(cell.with_borrow(|text| text.len()), Ok(3));
    let held = cell.borrow().unwrap();
    assert_eq!(cell.with_borrow(|text| text.to_uppercase()), Ok(String::from("ABC")));
    assert_eq!(cell.borrow_state(), refgraph::cell::BorrowState::SharedBorrowed(1));
    cell.release(held);
    let guard = cell.borrow_mut().unwrap();
    assert_eq!(cell.with_borrow(|text| text.len()), Err(BorrowConflict));
    cell.release_mut(guard);
    assert_eq!(cell.with_borrow(|text| text.len()), Ok(3));
    assert_eq!(cell.borrow_state(), refgraph::cell::BorrowState::Unborrowed);
}

#[test]
fn replace_is_a_scoped_exclusive_borrow() {
    let mut cell = MutCell::new(1);
    assert_eq!(cell.replace(2), Ok(1));
    let guard = cell.borrow().unwrap();
    assert_eq!(cell.replace(3), Err((BorrowConflict, 3)));
    assert_eq!(*cell.get(&guard), 2);
    cell.release(guard);
    assert_eq!(cell.replace(3), Ok(2));
    assert_eq!(cell.into_inner(), 3);
}
