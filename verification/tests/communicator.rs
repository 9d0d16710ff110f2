use armory::communicator::{
    miss_add_fn, miss_fire_fn, powe_dec_fn, shieldoff_fn, shieldon_fn, to_command, try_fn, Command,
};

#[test]
fn to_command_parses_each_rule() {
    assert_eq!(to_command("power inc 10"), Command::Power(true, 10));
    assert_eq!(to_command("power dec 5"), Command::Power(false, 5));
    assert_eq!(to_command("fire 3 missiles"), Command::Missiles(false, 3));
    assert_eq!(to_command("add 2 missiles"), Command::Missiles(true, 2));
    assert_eq!(to_command("shield on"), Command::Shield(true));
    assert_eq!(to_command("shield off"), Command::Shield(false));
    assert_eq!(to_command("try calling Miss Potts"), Command::Try);
}

#[test]
fn to_command_rejects_malformed_input() {
    assert_eq!(to_command("hello there"), Command::Invalid);
    assert_eq!(to_command(""), Command::Invalid);
    assert_eq!(to_command("power inc "), Command::Invalid);
    assert_eq!(to_command("power inc x"), Command::Invalid);
    assert_eq!(to_command("power inc -5"), Command::Invalid);
    assert_eq!(to_command("power inc 99999999999"), Command::Invalid);
    assert_eq!(to_command("fire 5"), Command::Invalid);
    assert_eq!(to_command("fire 5 missile"), Command::Invalid);
    assert_eq!(to_command("fire x missiles"), Command::Invalid);
    assert_eq!(to_command("shield onx"), Command::Invalid);
    assert_eq!(to_command("try calling Miss Potts!"), Command::Invalid);
}

#[test]
fn to_command_parses_boundary_numbers() {
    assert_eq!(to_command("power inc 0"), Command::Power(true, 0));
    assert_eq!(
        to_command("power inc 2147483647"),
        Command::Power(true, 2147483647)
    );
    assert_eq!(to_command("power inc 2147483648"), Command::Invalid);
    assert_eq!(to_command("add 007 missiles"), Command::Missiles(true, 7));
}

#[test]
fn chain_functions_fall_through() {
    assert_eq!(try_fn("try calling Miss Potts"), Command::Try);
    assert_eq!(try_fn("shield on"), Command::Invalid);
    assert_eq!(shieldoff_fn("shield off"), Command::Shield(false));
    assert_eq!(shieldoff_fn("try calling Miss Potts"), Command::Try);
    assert_eq!(shieldon_fn("shield on"), Command::Shield(true));
    assert_eq!(shieldon_fn("shield off"), Command::Shield(false));
    assert_eq!(miss_fire_fn("fire 8 missiles"), Command::Missiles(false, 8));
    assert_eq!(miss_fire_fn("shield on"), Command::Shield(true));
    assert_eq!(miss_add_fn("add 1 missiles"), Command::Missiles(true, 1));
    assert_eq!(miss_add_fn("fire 1 missiles"), Command::Missiles(false, 1));
    assert_eq!(powe_dec_fn("power dec 40"), Command::Power(false, 40));
    assert_eq!(powe_dec_fn("add 6 missiles"), Command::Missiles(true, 6));
    assert_eq!(powe_dec_fn("power inc 40"), Command::Invalid);
}

#[test]
fn as_str_renders_each_command() {
    assert_eq!(Command::Power(true, 10).as_str(), "Power increased by 10%");
    assert_eq!(Command::Power(false, 5).as_str(), "Power decreased by 5%");
    assert_eq!(
        Command::Missiles(true, 2).as_str(),
        "Missiles increased by 2"
    );
    assert_eq!(
        Command::Missiles(false, 3).as_str(),
        "Missiles decreased by 3"
    );
    assert_eq!(Command::Shield(true).as_str(), "Shield turned on");
    assert_eq!(Command::Shield(false).as_str(), "Shield turned off");
    assert_eq!(Command::Try.as_str(), "Call attempt failed");
    assert_eq!(Command::Invalid.as_str(), "Not a command");
}

#[test]
fn as_str_renders_negative_and_large_numbers() {
    assert_eq!(Command::Power(true, -7).as_str(), "Power increased by -7%");
    assert_eq!(
        Command::Power(false, i32::MIN).as_str(),
        "Power decreased by -2147483648%"
    );
    assert_eq!(
        Command::Missiles(true, i32::MAX).as_str(),
        "Missiles increased by 2147483647"
    );
    assert_eq!(Command::Missiles(false, 0).as_str(), "Missiles decreased by 0");
}
