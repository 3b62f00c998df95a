use liro::bot::rating_range::RatingRange;
use liro::bot::role_manager::RoleManager;
use liro::lichess::format::Format;
use liro::ratings::Ratings;

fn blitz_ratings(rating: i16) -> Ratings {
    let mut ratings = Ratings::empty();
    ratings.set(Format::Blitz, Some(rating));
    ratings
}

#[test]
fn find_rating_range_role_can_be_called_on_an_empty_manager() {
    let rm = RoleManager::new();

    assert_eq!(rm.find_rating_range_roles(0, &blitz_ratings(15)).len(), 0);
}

#[test]
fn find_rating_range_returns_all_ranges_that_match() {
    let mut rm = RoleManager::new();
    rm.add_guild(0);

    rm.add_rating_range(0, 123, RatingRange::new(Format::Blitz, Some(10), Some(20)));
    rm.add_rating_range(0, 345, RatingRange::new(Format::Blitz, Some(10), Some(30)));
    rm.add_rating_range(
        0,
        456,
        RatingRange::new(Format::Classical, Some(10), Some(30)),
    );

    let result = rm.find_rating_range_roles(0, &blitz_ratings(15));
    assert!(result.contains(&123));
    assert!(result.contains(&345));
    assert!(!result.contains(&456));
}

#[test]
fn remove_role_can_be_called_on_an_empty_manager() {
    let mut rm = RoleManager::new();

    rm.remove_role(0, 0);
}

#[test]
fn remove_role_correctly_removes_roles() {
    let mut rm = RoleManager::new();
    rm.add_guild(0);

    rm.add_rating_range(0, 123, RatingRange::new(Format::Blitz, Some(10), Some(20)));

    assert_eq!(rm.find_rating_range_roles(0, &blitz_ratings(15)), vec![123]);

    rm.remove_role(0, 123);

    assert_eq!(rm.find_rating_range_roles(0, &blitz_ratings(15)).len(), 0);
}

#[test]
fn other_rating_range_roles_can_be_called_on_empty_manager() {
    let rm = RoleManager::new();

    assert_eq!(rm.other_rating_range_roles(0, &[0]).len(), 0);
}

#[test]
fn other_rating_range_roles_returns_other_roles() {
    let mut rm = RoleManager::new();
    rm.add_guild(0);

    rm.add_rating_range(0, 123, RatingRange::new(Format::Blitz, Some(10), Some(19)));
    rm.add_rating_range(0, 345, RatingRange::new(Format::Bullet, Some(20), Some(30)));

    assert_eq!(rm.other_rating_range_roles(0, &[123]), vec![345]);
}
