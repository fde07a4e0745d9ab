use rust_examples::threads::{
    build_users, do_math, park_command, split_into_chunks, sum_chunk, user_list_step, ParkCommand,
    N_THREADS,
};

#[test]
fn do_math_values() {
    assert_eq!(1024, do_math(0));
    assert_eq!(10240, do_math(9));
}

#[test]
fn build_users_values() {
    assert_eq!(vec!["Alice".to_string(), "Bob".to_string()], build_users());
}

#[test]
fn chunks_cover_values() {
    let values: Vec<u32> = (0..20).collect();
    let chunks = split_into_chunks(&values, N_THREADS);
    let lens: Vec<usize> = chunks.iter().map(|c| c.len()).collect();
    assert_eq!(vec![8, 8, 4], lens);
    assert_eq!(values, chunks.concat());
    assert!(split_into_chunks(&[], 3).is_empty());
}

#[test]
fn partial_sums_add_up() {
    let values: Vec<u32> = (0..5000).collect();
    let chunks = split_into_chunks(&values, N_THREADS);
    let partials: Vec<u32> = chunks.iter().map(|c| sum_chunk(c)).collect();
    assert_eq!(12_497_500, sum_chunk(&partials));
    assert_eq!(sum_chunk(&values), sum_chunk(&partials));
}

#[test]
fn user_list_prompt() {
    let mut users = build_users();
    assert!(!user_list_step(&mut users, "Carol".to_string()));
    assert!(user_list_step(&mut users, "q".to_string()));
    assert_eq!(vec!["Alice".to_string(), "Bob".to_string(), "Carol".to_string()], users);
    assert!(!user_list_step(&mut users, "Q".to_string()));
    assert_eq!(4, users.len());
}

#[test]
fn park_commands() {
    assert_eq!(ParkCommand::Quit, park_command("q", 10));
    assert_eq!(ParkCommand::Unpark(3), park_command("3", 10));
    assert_eq!(ParkCommand::Unpark(9), park_command("+9", 10));
    assert_eq!(ParkCommand::Unpark(0), park_command("000", 10));
    assert_eq!(ParkCommand::Ignore, park_command("10", 10));
    assert_eq!(ParkCommand::Ignore, park_command("-1", 10));
    assert_eq!(ParkCommand::Ignore, park_command("", 10));
    assert_eq!(ParkCommand::Ignore, park_command("+", 10));
    assert_eq!(ParkCommand::Ignore, park_command(" 3", 10));
    assert_eq!(ParkCommand::Ignore, park_command("99999999999999999999999", 10));
}
