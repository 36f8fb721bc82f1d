use task_manager::Commands;
use task_manager::Options;

fn flags(add: bool, remove: bool, complete: bool, list: bool, update: bool) -> Options {
    Options {
        add,
        remove,
        complete,
        list,
        update,
    }
}

#[test]
fn one_flag_selects_its_command() {
    assert_eq!(
        flags(true, false, false, false, false).route(),
        Some(Commands::Add)
    );
    assert_eq!(
        flags(false, true, false, false, false).route(),
        Some(Commands::Remove)
    );
    assert_eq!(
        flags(false, false, true, false, false).route(),
        Some(Commands::Complete)
    );
    assert_eq!(
        flags(false, false, false, true, false).route(),
        Some(Commands::List)
    );
    assert_eq!(
        flags(false, false, false, false, true).route(),
        Some(Commands::Update)
    );
}

#[test]
fn no_flag_is_the_unknown_command() {
    assert_eq!(
        flags(false, false, false, false, false).route(),
        Some(Commands::NoCommand)
    );
}

#[test]
fn more_than_one_flag_is_a_usage_error() {
    assert_eq!(flags(true, true, false, false, false).route(), None);
    assert_eq!(flags(false, false, true, true, true).route(), None);
    assert_eq!(flags(true, true, true, true, true).route(), None);
}
