use liro::bot::command::Command;
use liro::bot::rating_range::RatingRange;
use liro::bot::reconcile::{
    begin_reconcile, classify, filter_applied, finish_reconcile, plan_role_changes, rating_report,
    unlink_role_removals, RatingChange,
};
use liro::bot::role_manager::RoleManager;
use liro::config::{client_id, hostname, redis_uri};
use liro::lichess::api;
use liro::lichess::auth::oauth_url;
use liro::lichess::client::{FormatRating, LichessUser, Profile};
use liro::lichess::format::Format;
use liro::models::challenge::{Challenge, ChallengeStore, TTL};
use liro::models::guild::{Guild, GuildStore};
use liro::models::user::{User, UserStore};
use liro::ratings::Ratings;
use liro::text::{i16_to_string, str_eq, u64_to_string};
use liro::web::link::{complete_link, require_challenge, LinkError};

fn ratings_with(f: Format, rating: i16) -> Ratings {
    let mut ratings = Ratings::empty();
    ratings.set(f, Some(rating));
    ratings
}

#[test]
fn parse_rejects_labels_without_range_semantics() {
    assert!("foo".parse::<RatingRange>().is_err());
    assert!("2000++ blitz".parse::<RatingRange>().is_err());
    assert!("uu2000 blitz".parse::<RatingRange>().is_err());
    assert!("U12 blitz".parse::<RatingRange>().is_err());
    assert!("U30000 blitz".parse::<RatingRange>().is_err());
    assert!("12345+ blitz".parse::<RatingRange>().is_err());
    assert!("1000-1099 chess960".parse::<RatingRange>().is_err());
    assert!("1000-1099 Blitz".parse::<RatingRange>().is_err());
    assert!("U1000".parse::<RatingRange>().is_err());
    assert!("".parse::<RatingRange>().is_err());
}

#[test]
fn parse_accepts_lowercase_under_prefix() {
    let rr = "u1000 rapid".parse::<RatingRange>().unwrap();
    assert_eq!(rr.min, None);
    assert_eq!(rr.max, Some(1000));
    assert_eq!(rr.format, Format::Rapid);
    assert!(rr.is_match(Format::Rapid, 999));
    assert!(!rr.is_match(Format::Rapid, 1000));
}

#[test]
fn get_name_prints_the_canonical_label() {
    let between = RatingRange::new(Format::Blitz, Some(1000), Some(1099));
    assert_eq!(between.get_name().unwrap(), "1000-1099 blitz");

    let over = RatingRange::new(Format::Classical, Some(2200), None);
    assert_eq!(over.get_name().unwrap(), "2200+ classical");

    let under = RatingRange::new(Format::Rapid, None, Some(1000));
    assert_eq!(under.get_name().unwrap(), "U1000 rapid");

    let empty = RatingRange::new(Format::Bullet, None, None);
    assert!(empty.get_name().is_none());
}

#[test]
fn registry_matching_is_monotonic_under_registration() {
    let mut rm = RoleManager::new();
    rm.add_guild(5);
    rm.add_rating_range(5, 100, RatingRange::new(Format::Blitz, Some(1000), Some(1099)));

    let ratings = ratings_with(Format::Blitz, 1050);
    assert!(rm.find_rating_range_roles(5, &ratings).contains(&100));

    rm.add_rating_range(5, 200, RatingRange::new(Format::Blitz, Some(1000), Some(1199)));
    let after = rm.find_rating_range_roles(5, &ratings);
    assert!(after.contains(&100));
    assert!(after.contains(&200));
}

#[test]
fn matching_and_other_roles_never_overlap() {
    let mut rm = RoleManager::new();
    rm.add_guild(5);
    rm.add_rating_range(5, 100, RatingRange::new(Format::Blitz, Some(1000), Some(1099)));
    rm.add_rating_range(5, 200, RatingRange::new(Format::Blitz, Some(1100), Some(1199)));
    rm.add_rating_range(5, 300, RatingRange::new(Format::Bullet, Some(900), Some(1999)));

    let ratings = ratings_with(Format::Blitz, 1050);
    let matching = rm.find_rating_range_roles(5, &ratings);
    let others = rm.other_rating_range_roles(5, matching.as_slice());
    for id in &matching {
        assert!(!others.contains(id));
    }
    assert!(matching.contains(&100));
    assert!(others.contains(&200));
    assert!(others.contains(&300));
}

#[test]
fn add_guild_resets_the_community() {
    let mut rm = RoleManager::new();
    rm.add_guild(5);
    rm.add_rating_range(5, 100, RatingRange::new(Format::Blitz, Some(1000), Some(1099)));
    rm.add_guild(5);

    let ratings = ratings_with(Format::Blitz, 1050);
    assert_eq!(rm.find_rating_range_roles(5, &ratings).len(), 0);
}

#[test]
fn delete_guild_forgets_the_community() {
    let mut rm = RoleManager::new();
    rm.add_guild(5);
    rm.add_guild(6);
    rm.add_rating_range(5, 100, RatingRange::new(Format::Blitz, Some(1000), Some(1099)));
    rm.add_rating_range(6, 300, RatingRange::new(Format::Blitz, Some(1000), Some(1099)));
    rm.delete_guild(5);

    let ratings = ratings_with(Format::Blitz, 1050);
    assert_eq!(rm.find_rating_range_roles(5, &ratings).len(), 0);
    assert_eq!(rm.find_rating_range_roles(6, &ratings), vec![300]);
}

#[test]
fn redeem_is_single_use() {
    let mut store = ChallengeStore::new();
    let c = store.issue(1, 7);
    assert_eq!(store.count(), 1);

    let first = store.redeem(c.id);
    assert!(first.is_some());
    let redeemed = first.unwrap();
    assert_eq!(redeemed.guild_id(), 1);
    assert_eq!(redeemed.discord_id(), 7);
    assert_eq!(store.count(), 0);

    let second = store.redeem(c.id);
    assert!(second.is_none());
}

#[test]
fn redeem_with_wrong_id_reports_challenge_not_found() {
    let mut store = ChallengeStore::new();
    let c = store.issue(1, 7);

    let wrong_id = c.id.wrapping_add(1);
    let outcome = require_challenge(store.redeem(wrong_id));
    assert_eq!(outcome.unwrap_err(), LinkError::ChallengeNotFound);

    // The real challenge is still live and redeemable.
    assert!(store.redeem(c.id).is_some());
}

#[test]
fn link_url_embeds_the_challenge_derived_from_the_stored_verifier() {
    let verifier = vec![b'a'; 43];
    let c = Challenge {
        id: 42,
        guild_id: 1,
        discord_id: 7,
        code_verifier: verifier.clone(),
    };

    let expected_challenge = pkce::code_challenge(&verifier);
    assert_eq!(expected_challenge, "ZtNPunH49FD35FWYhT5Tv8I7vRKQJ8uxMaL0_9eHjNA");

    let url = c.lichess_url("https://liro.example", "client-1");
    let expected = format!(
        "https://lichess.org/oauth?response_type=code&redirect_uri=https://liro.example/oauth/callback\
         &client_id=client-1&code_challenge_method=S256&code_challenge={}&state=42",
        expected_challenge
    )
    .replace(" ", "");
    assert_eq!(url, expected);
    assert_eq!(c.code_verifier(), String::from_utf8(verifier).unwrap());
}

#[test]
fn issued_challenge_round_trips_through_its_own_verifier() {
    let mut store = ChallengeStore::new();
    let c = store.issue(9, 13);
    assert_eq!(c.code_verifier.len(), 128);

    let url = c.lichess_url("https://liro.example", "client-1");
    let rederived = pkce::code_challenge(&c.code_verifier);
    // The challenge text is derived, never the raw verifier.
    assert_ne!(rederived.as_bytes(), c.code_verifier.as_slice());
    assert!(url.contains(&format!("&code_challenge={}&", rederived)));
    assert!(url.contains(&format!("&state={}", c.state())));
}

#[test]
fn reconcile_moves_member_between_bands() {
    let mut users = UserStore::new();
    users.save(User::new(1, 7, "alice".to_string()));

    let mut rm = RoleManager::new();
    rm.add_guild(1);
    rm.add_rating_range(1, 111, RatingRange::new(Format::Blitz, Some(1000), Some(1099)));
    rm.add_rating_range(1, 222, RatingRange::new(Format::Blitz, Some(1100), Some(1199)));

    let username = begin_reconcile(&users, 1, 7).unwrap();
    assert_eq!(username, "alice");

    let new_ratings = ratings_with(Format::Blitz, 1150);
    let current_roles = vec![111];
    let plan = finish_reconcile(&mut users, &rm, 1, 7, new_ratings, &current_roles).unwrap();

    assert_eq!(plan.to_add, vec![222]);
    assert_eq!(plan.to_remove, vec![111]);

    // The fresh snapshot was persisted before any role mutation.
    let stored = users.find(1, 7).unwrap();
    assert_eq!(stored.get_ratings().get(Format::Blitz), Some(1150));
}

#[test]
fn reconcile_without_record_reports_not_linked() {
    let users = UserStore::new();
    assert!(begin_reconcile(&users, 1, 7).is_none());

    let mut users = UserStore::new();
    let rm = RoleManager::new();
    let outcome = finish_reconcile(
        &mut users,
        &rm,
        1,
        7,
        ratings_with(Format::Blitz, 1500),
        &vec![],
    );
    assert!(outcome.is_none());
    assert_eq!(users.count(), 0);
}

#[test]
fn reconcile_report_classifies_every_category() {
    let mut users = UserStore::new();
    let mut old_user = User::new(1, 7, "alice".to_string());
    let mut old_ratings = Ratings::empty();
    old_ratings.set(Format::Blitz, Some(1000));
    old_ratings.set(Format::Bullet, Some(1500));
    old_ratings.set(Format::Classical, Some(1800));
    old_user.update_ratings(old_ratings);
    users.save(old_user);

    let rm = RoleManager::new();
    let mut new_ratings = Ratings::empty();
    new_ratings.set(Format::Blitz, Some(1100));
    new_ratings.set(Format::Bullet, Some(1400));
    new_ratings.set(Format::Rapid, Some(900));

    let plan = finish_reconcile(&mut users, &rm, 1, 7, new_ratings, &vec![]).unwrap();
    assert_eq!(
        plan.report,
        vec![
            (Format::Blitz, RatingChange::Improved),
            (Format::Bullet, RatingChange::Declined),
            (Format::Classical, RatingChange::LostRating),
            (Format::Rapid, RatingChange::NewlyRated),
        ]
    );
}

#[test]
fn classify_covers_all_cases() {
    assert_eq!(classify(Some(1000), Some(1000)), RatingChange::Unchanged);
    assert_eq!(classify(Some(1000), Some(1001)), RatingChange::Improved);
    assert_eq!(classify(Some(1001), Some(1000)), RatingChange::Declined);
    assert_eq!(classify(None, Some(1000)), RatingChange::NewlyRated);
    assert_eq!(classify(Some(1000), None), RatingChange::LostRating);
    assert_eq!(classify(None, None), RatingChange::NeverRated);
}

#[test]
fn rating_report_is_in_category_order() {
    let old_ratings = Ratings::empty();
    let new_ratings = ratings_with(Format::Rapid, 1200);
    let report = rating_report(&old_ratings, &new_ratings);
    assert_eq!(report.len(), 4);
    assert_eq!(report[0].0, Format::Blitz);
    assert_eq!(report[3], (Format::Rapid, RatingChange::NewlyRated));
}

#[test]
fn plan_role_changes_diffs_against_current_roles() {
    let target = vec![1, 2, 3];
    let removable = vec![4, 5];
    let current = vec![2, 4, 9];
    let plan = plan_role_changes(&target, &removable, &current);
    assert_eq!(plan.to_add, vec![1, 3]);
    assert_eq!(plan.to_remove, vec![4]);
}

#[test]
fn filter_applied_keeps_only_successes() {
    let ids = vec![10, 20, 30];
    let ok = vec![true, false, true];
    assert_eq!(filter_applied(&ids, &ok), vec![10, 30]);
}

#[test]
fn unlink_strips_held_registry_roles() {
    let mut rm = RoleManager::new();
    rm.add_guild(1);
    rm.add_rating_range(1, 111, RatingRange::new(Format::Blitz, Some(1000), Some(1099)));
    rm.add_rating_range(1, 222, RatingRange::new(Format::Blitz, Some(1100), Some(1199)));

    let current = vec![222, 999];
    assert_eq!(unlink_role_removals(&rm, 1, &current), vec![222]);
}

#[test]
fn complete_link_rejects_bot_accounts() {
    let mut users = UserStore::new();
    let mut store = ChallengeStore::new();
    let c = store.issue(1, 7);

    let account = LichessUser::new("robot".to_string(), Some("BOT".to_string()));
    let outcome = complete_link(&mut users, &c, &account);
    assert_eq!(outcome.unwrap_err(), LinkError::BotAccount);
    assert_eq!(users.count(), 0);
}

#[test]
fn complete_link_rejects_duplicate_usernames() {
    let mut users = UserStore::new();
    users.save(User::new(1, 5, "alice".to_string()));

    let mut store = ChallengeStore::new();
    let c = store.issue(1, 7);

    let account = LichessUser::new("alice".to_string(), None);
    let outcome = complete_link(&mut users, &c, &account);
    assert_eq!(outcome.unwrap_err(), LinkError::DuplicateLink);
    assert!(users.find(1, 7).is_none());
}

#[test]
fn complete_link_creates_the_identity_record() {
    let mut users = UserStore::new();
    let mut store = ChallengeStore::new();
    let c = store.issue(1, 7);

    let account = LichessUser::new("alice".to_string(), Some("GM".to_string()));
    let user = complete_link(&mut users, &c, &account).unwrap();
    assert_eq!(user.get_lichess_username(), "alice");

    let stored = users.find(1, 7).unwrap();
    assert_eq!(stored.get_lichess_username(), "alice");
    assert_eq!(stored.get_ratings().get(Format::Blitz), None);
}

#[test]
fn link_errors_carry_status_and_message() {
    assert_eq!(LinkError::ChallengeNotFound.status_code(), 404);
    assert_eq!(LinkError::BotAccount.status_code(), 409);
    assert_eq!(LinkError::DuplicateLink.status_code(), 409);
    assert_eq!(
        LinkError::ChallengeNotFound.message(),
        "authentication challenge not found"
    );
    assert_eq!(LinkError::BotAccount.message(), "bot accounts are not allowed");
    assert_eq!(
        LinkError::DuplicateLink.message(),
        "The account you are trying to link is already in use on this Discord server"
    );
}

#[test]
fn profile_keeps_only_established_known_ratings() {
    let profile = Profile::new(vec![
        (
            "blitz".to_string(),
            FormatRating { games: Some(10), rating: Some(1500), prov: None },
        ),
        (
            "bullet".to_string(),
            FormatRating { games: Some(3), rating: Some(1800), prov: Some(true) },
        ),
        (
            "rapid".to_string(),
            FormatRating { games: Some(5), rating: Some(1700), prov: Some(false) },
        ),
        (
            "classical".to_string(),
            FormatRating { games: Some(5), rating: None, prov: None },
        ),
        (
            "chess960".to_string(),
            FormatRating { games: Some(5), rating: Some(1600), prov: None },
        ),
    ]);

    let ratings = profile.get_ratings();
    assert_eq!(ratings.get(Format::Blitz), Some(1500));
    assert_eq!(ratings.get(Format::Bullet), None);
    assert_eq!(ratings.get(Format::Rapid), None);
    assert_eq!(ratings.get(Format::Classical), None);
}

#[test]
fn is_bot_detects_the_bot_title_only() {
    assert!(LichessUser::new("r".to_string(), Some("BOT".to_string())).is_bot());
    assert!(!LichessUser::new("gm".to_string(), Some("GM".to_string())).is_bot());
    assert!(!LichessUser::new("nn".to_string(), None).is_bot());
}

#[test]
fn calculate_rating_weights_by_games() {
    let profile = api::Profile {
        perfs: vec![
            (
                "bullet".to_string(),
                api::FormatRating { games: Some(10), rating: Some(2000) },
            ),
            (
                "blitz".to_string(),
                api::FormatRating { games: Some(30), rating: Some(1000) },
            ),
            (
                "puzzle".to_string(),
                api::FormatRating { games: Some(100), rating: Some(2500) },
            ),
        ],
    };
    assert_eq!(profile.calculate_rating(), 1250);
}

#[test]
fn storage_keys_follow_the_layout() {
    assert_eq!(liro::models::user::key(1, 7), "guilds:1:users:7");
    let user = User::new(1, 7, "alice".to_string());
    assert_eq!(user.key(), "guilds:1:users:7");

    assert_eq!(liro::models::guild::key(12), "guilds:12");
    assert_eq!(Guild::new(12, "club".to_string()).key(), "guilds:12");

    assert_eq!(liro::models::challenge::key(99), "challenges:99");
    assert_eq!(TTL, 86400);
}

#[test]
fn decimal_rendering_matches_expected_text() {
    assert_eq!(u64_to_string(0), "0");
    assert_eq!(u64_to_string(12345), "12345");
    assert_eq!(u64_to_string(u64::MAX), "18446744073709551615");
    assert_eq!(i16_to_string(0), "0");
    assert_eq!(i16_to_string(2200), "2200");
    assert_eq!(i16_to_string(-17), "-17");
    assert_eq!(i16_to_string(i16::MIN), "-32768");
}

#[test]
fn str_eq_compares_by_characters() {
    assert!(str_eq("abc", "abc"));
    assert!(!str_eq("abc", "abd"));
    assert!(!str_eq("abc", "ab"));
    assert!(str_eq("", ""));
}

#[test]
fn oauth_url_concatenates_the_parts() {
    let url = oauth_url("CH", "ST", "https://host.example", "cid");
    assert_eq!(
        url,
        "https://lichess.org/oauth?response_type=code&redirect_uri=https://host.example/oauth/callback\
         &client_id=cid&code_challenge_method=S256&code_challenge=CH&state=ST"
            .replace(" ", "")
    );
}

#[test]
fn config_defaults_apply_when_unset() {
    assert_eq!(redis_uri(Some("db.example")), "redis://db.example/");
    assert_eq!(redis_uri(None), "redis://127.0.0.1/");
    assert_eq!(hostname(Some("https://liro.example".to_string())), "https://liro.example");
    assert_eq!(hostname(None), "http://localhost:8000");
    assert_eq!(client_id(Some("cid".to_string())), "cid");
    assert_eq!(client_id(None), "liro-test-bot");
}

#[test]
fn command_parse_recognises_the_prefix_commands() {
    assert!(matches!(Command::parse("ohnomy rating", 7), Command::Rating(7)));
    assert!(matches!(Command::parse("ohnomy account", 7), Command::ConnectAccount(7)));
    assert!(matches!(Command::parse("ohnomy help", 7), Command::Unknown("help")));
    assert!(matches!(Command::parse("hello there", 7), Command::Ignore));
    assert!(matches!(Command::parse("", 7), Command::Ignore));
}

#[test]
fn user_store_deletes_and_counts() {
    let mut users = UserStore::new();
    users.save(User::new(1, 7, "alice".to_string()));
    users.save(User::new(1, 8, "bob".to_string()));
    assert_eq!(users.count(), 2);

    assert!(users.delete(1, 7));
    assert!(!users.delete(1, 7));
    assert_eq!(users.count(), 1);
    assert!(users.find(1, 7).is_none());
    assert_eq!(users.find(1, 8).unwrap().get_lichess_username(), "bob");

    let by_name = users.find_by_username(1, "bob").unwrap();
    assert_eq!(by_name.discord_id, 8);
    assert!(users.find_by_username(1, "alice").is_none());
}

#[test]
fn guild_store_round_trips_records() {
    let mut guilds = GuildStore::new();
    guilds.save(Guild::new(12, "club".to_string()));
    assert_eq!(guilds.count(), 1);
    assert_eq!(guilds.find(12).unwrap().name, "club");
    assert!(guilds.delete(12));
    assert!(guilds.find(12).is_none());
}

#[test]
fn registering_in_an_unknown_community_is_a_no_op() {
    let mut rm = RoleManager::new();
    rm.add_rating_range(5, 100, RatingRange::new(Format::Blitz, Some(1000), Some(1099)));
    assert_eq!(rm.find_rating_range_roles(5, &ratings_with(Format::Blitz, 1050)).len(), 0);
    assert_eq!(rm.other_rating_range_roles(5, &[]).len(), 0);

    rm.update_role(5, 100, "1000-1099 blitz");
    assert_eq!(rm.other_rating_range_roles(5, &[]).len(), 0);

    rm.add_guild_roles(5, &vec![(100, "1000-1099 blitz".to_string())]);
    assert_eq!(rm.other_rating_range_roles(5, &[]).len(), 0);
}

#[test]
fn add_guild_roles_registers_only_labelled_roles() {
    let mut rm = RoleManager::new();
    rm.add_guild(1);
    let roles = vec![
        (111, "1000-1099 blitz".to_string()),
        (222, "moderators".to_string()),
        (333, "U1000 rapid".to_string()),
    ];
    rm.add_guild_roles(1, &roles);

    let blitz = rm.find_rating_range_roles(1, &ratings_with(Format::Blitz, 1050));
    assert_eq!(blitz, vec![111]);
    let rapid = rm.find_rating_range_roles(1, &ratings_with(Format::Rapid, 900));
    assert_eq!(rapid, vec![333]);
    assert_eq!(rm.other_rating_range_roles(1, &[]).len(), 2);
}

#[test]
fn update_role_follows_renames() {
    let mut rm = RoleManager::new();
    rm.add_guild(1);
    rm.add_rating_range(1, 111, RatingRange::new(Format::Blitz, Some(1000), Some(1099)));

    rm.update_role(1, 111, "1100-1199 blitz");
    let ratings = ratings_with(Format::Blitz, 1150);
    assert_eq!(rm.find_rating_range_roles(1, &ratings), vec![111]);

    rm.update_role(1, 111, "no longer a band");
    assert_eq!(rm.other_rating_range_roles(1, &[]).len(), 0);
}
