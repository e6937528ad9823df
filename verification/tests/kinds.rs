use shadow_runner::kinds::{
    marker_kind, player_contact, trigger_of, Contact, Trigger, NEXT_LEVEL, OUT_OF_WORLD, WALL,
};

#[test]
fn kinds_are_the_numbers_of_the_level_files() {
    assert_eq!(WALL, 1);
    assert_eq!(OUT_OF_WORLD, 2);
    assert_eq!(NEXT_LEVEL, 3);
}

#[test]
fn marker_kind_follows_the_tags() {
    assert_eq!(marker_kind(false, false), 1);
    assert_eq!(marker_kind(true, false), 2);
    assert_eq!(marker_kind(false, true), 3);
    assert_eq!(marker_kind(true, true), 3);
}

#[test]
fn only_the_two_trigger_kinds_carry_a_trigger() {
    assert_eq!(trigger_of(1), None);
    assert_eq!(trigger_of(2), Some(Trigger::OutOfWorld));
    assert_eq!(trigger_of(3), Some(Trigger::NextLevel));
    assert_eq!(trigger_of(0), None);
    assert_eq!(trigger_of(4), None);
    assert_eq!(trigger_of(-2), None);
}

#[test]
fn contact_without_the_player_means_nothing() {
    assert_eq!(player_contact(5, 6, 1, 5, &vec![6]), Contact::Nothing);
}

#[test]
fn contact_with_a_wall_means_nothing() {
    assert_eq!(player_contact(1, 9, 1, 5, &vec![6, 7]), Contact::Nothing);
    assert_eq!(player_contact(1, 9, 1, 5, &Vec::new()), Contact::Nothing);
}

#[test]
fn contact_with_the_exit_starts_the_next_level_in_either_order() {
    assert_eq!(player_contact(1, 5, 1, 5, &vec![6, 7]), Contact::NextLevel);
    assert_eq!(player_contact(5, 1, 1, 5, &vec![6, 7]), Contact::NextLevel);
}

#[test]
fn contact_with_any_pit_ends_the_game_in_either_order() {
    assert_eq!(player_contact(1, 6, 1, 5, &vec![6, 7]), Contact::OutOfWorld);
    assert_eq!(player_contact(7, 1, 1, 5, &vec![6, 7]), Contact::OutOfWorld);
}

#[test]
fn exit_goes_before_the_pits() {
    assert_eq!(player_contact(1, 5, 1, 5, &vec![5]), Contact::NextLevel);
}

#[test]
fn player_that_is_its_own_exit_or_pit_is_in_contact_with_it() {
    assert_eq!(player_contact(1, 9, 1, 1, &Vec::new()), Contact::NextLevel);
    assert_eq!(player_contact(1, 9, 1, 5, &vec![1]), Contact::OutOfWorld);
}
