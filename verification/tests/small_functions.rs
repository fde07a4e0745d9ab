use rust_examples::tasks::{command_step, Command};
use rust_examples::tasks::{channel_for, Channel};
use rust_examples::animals::{speak_twice, Animal, Cat, Dog};
use rust_examples::tasks::double;
use rust_examples::variables::{double_or_nothing, greet_borrow_mut};

#[test]
fn simple_test() {
    assert_eq!(2 + 2, 4);
}

#[test]
fn long_way_to_test_async() {
    let rt = tokio::runtime::Builder::new_current_thread()
        .enable_all()
        .build()
        .unwrap();
    assert_eq!(rt.block_on(async { double(2) }), 4);
}

#[test]
fn tokio_built_in_test() {
    let rt = tokio::runtime::Runtime::new().unwrap();
    assert_eq!(rt.block_on(async { double(2) }), 4);
}

#[test]
fn variables_double() {
    assert_eq!(110, rust_examples::variables::double(55));
    assert_eq!(-8, rust_examples::variables::double(-4));
    assert_eq!(176, double_or_nothing(88));
    assert_eq!(0, double_or_nothing(0));
    assert_eq!(0, double_or_nothing(-5));
}

#[test]
fn greet_in_place() {
    let mut name = "mutable_string".to_string();
    greet_borrow_mut(&mut name);
    assert_eq!("Why hello there mutable_string", name);
}

#[test]
fn animals_speak() {
    assert_eq!("meow", Cat.speak());
    assert_eq!("woof", Dog.speak());
    assert_eq!(vec!["meow".to_string(), "meow".to_string()], speak_twice(&Cat));
    assert_eq!(vec!["woof".to_string(), "woof".to_string()], speak_twice(&Dog));
}

#[test]
fn counts_alternate_channels() {
    assert_eq!(Channel::Mpsc, channel_for(0));
    assert_eq!(Channel::Broadcast, channel_for(1));
    assert_eq!(Channel::Mpsc, channel_for(8));
    assert_eq!(Channel::Broadcast, channel_for(u32::MAX));
}

#[test]
fn greeting_thread_commands() {
    assert_eq!(("hello".to_string(), false), command_step(Command::SayHello));
    assert_eq!(("quiting".to_string(), true), command_step(Command::Quit));
}
