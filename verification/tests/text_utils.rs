use delimscan::eat_at_restaurant;
use delimscan::guess::Guess;
use delimscan::hosting;
use delimscan::pig_latin::piggify;
use delimscan::point::Point;
use delimscan::search::{contains_sub, lines_of};
use delimscan::summary::{NewsArticle, Summary, Tweet};
use delimscan::util::largest;

#[test]
fn piggify_moves_a_consonant_to_the_end() {
    assert_eq!("IsNotFIne-Bay", piggify("BIsNotFIne"));
}

#[test]
fn piggify_keeps_a_vowel_word_whole() {
    assert_eq!("Apple-hay", piggify("Apple"));
}

#[test]
fn piggify_of_nothing_is_nothing() {
    assert_eq!("", piggify(""));
}

#[test]
fn largest_of_two() {
    let wat = vec![10023, 31231];
    assert_eq!(31231, largest(&wat));
}

#[test]
fn largest_is_position_independent() {
    assert_eq!(9, largest(&[9, 3, 7]));
    assert_eq!(9, largest(&[3, 9, 7]));
    assert_eq!(9, largest(&[3, 7, 9]));
}

#[test]
fn mixup_crosses_the_coordinates() {
    let p1 = Point { x: 5, y: 10.4 };
    let p2 = Point { x: "Hello", y: 'c' };
    let p3 = p1.mixup(p2);
    assert_eq!(5, p3.x);
    assert_eq!('c', p3.y);
}

#[test]
fn tweet_summary() {
    let tweet = Tweet {
        username: String::from("horse_ebooks"),
        content: String::from("Of course, as you already know, people."),
        reply: false,
        retweet: false,
    };
    assert_eq!(
        "horse_ebooks: Of course, as you already know, people.",
        tweet.summarize()
    );
}

#[test]
fn article_summary() {
    let article = NewsArticle {
        headline: String::from("Penguins Win the Stanley Cup Championship!"),
        location: String::from("Pittsburgh, PA, USA"),
        author: String::from("Iceburgh"),
        content: String::from("The Pittsburgh Penguins once again are the best."),
    };
    assert_eq!(
        "Penguins Win the Stanley Cup Championship!, by Iceburgh (Pittsburgh, PA, USA)",
        article.summarize()
    );
}

#[test]
fn guess_holds_its_value() {
    assert_eq!(50, Guess::new(50).value());
    assert_eq!(1, Guess::new(1).value());
    assert_eq!(100, Guess::new(100).value());
}

#[test]
fn restaurant_can_be_eaten_at() {
    eat_at_restaurant();
    hosting::add_to_waitlist();
}

#[test]
fn lines_split_like_str_lines() {
    let text = "a\r\nb\nc";
    assert_eq!(vec!["a", "b", "c"], lines_of(text));
    assert_eq!(text.lines().collect::<Vec<&str>>(), lines_of(text));
}

#[test]
fn lines_keep_inner_empties_and_drop_a_final_one() {
    assert_eq!(vec!["a", "", "b"], lines_of("a\n\nb\n"));
    assert!(lines_of("").is_empty());
    assert_eq!(vec![""], lines_of("\n"));
}

#[test]
fn a_lone_carriage_return_is_kept() {
    let text = "x\r";
    assert_eq!(vec!["x\r"], lines_of(text));
    assert_eq!(text.lines().collect::<Vec<&str>>(), lines_of(text));
}

#[test]
fn contains_finds_inner_text() {
    assert!(contains_sub("hello", "ell"));
    assert!(contains_sub("hello", ""));
    assert!(!contains_sub("hello", "world"));
    assert!(!contains_sub("", "a"));
}
