use gis::gis::{default_config, Data, Gis, Identity, Lookup, Outcome, Workspace};

const SOME_ID: &str = "d4eddef79dcda8098582c3aecb425e97";

fn get_data() -> Data {
    Data {
        current_identity: Some(SOME_ID.into()),
        workspaces: vec![Workspace {
            name: "test".into(),
            path: "/tmp/test".into(),
            identity: SOME_ID.into(),
        }],
        identities: vec![Identity {
            author: "Some Author".into(),
            email: "some@email.com".into(),
            id: SOME_ID.into(),
        }],
    }
}

fn get_gis(pwd: &str) -> Gis {
    Gis { data: get_data(), config: ".gisrc".into(), pwd: pwd.into() }
}

fn empty_gis(pwd: &str) -> Gis {
    Gis::from_config(None, ".gisrc".into(), pwd.into())
}

#[test]
fn test_add_identity() {
    let mut gis = get_gis("/tmp/test");

    gis.add_identity("Another Author someother@email.com");
    let id = md5::compute(format!("{} {}", "Another Author", "someother@email.com"));
    assert_eq!(gis.data.identities.len(), 2);
    assert_eq!(gis.data.identities[1].author, "Another Author");
    assert_eq!(gis.data.identities[1].email, "someother@email.com");
    assert_eq!(gis.data.identities[1].id, format!("{:x}", id));
}

#[test]
fn test_add_identity_no_email() {
    let mut gis = get_gis("/tmp/test");

    gis.add_identity("Some Author");

    assert_eq!(gis.data.identities.len(), 1);
}

#[test]
fn test_add_identity_no_author() {
    let mut gis = get_gis("/tmp/test");

    gis.add_identity("some@email.com");

    assert_eq!(gis.data.identities.len(), 1);
}

#[test]
fn test_add_identity_no_author_no_email() {
    let mut gis = get_gis("/tmp/test");

    gis.add_identity("");

    assert_eq!(gis.data.identities.len(), 1);
}

#[test]
fn test_remove_identity() {
    let mut gis = get_gis("/tmp/test");

    gis.remove_identity(1);

    assert_eq!(gis.data.identities.len(), 0);
}

#[test]
fn test_add_workspace() {
    let mut gis = get_gis("/tmp/test");
    gis.add_workspace("test");

    assert_eq!(gis.data.workspaces.len(), 2);
    assert_eq!(gis.data.workspaces[1].name, "test");
    assert_eq!(gis.data.workspaces[1].path, "/tmp/test");
}

#[test]
fn test_add_workspace_no_name() {
    let mut gis = get_gis("/tmp/test");
    gis.add_workspace("");

    assert_eq!(gis.data.workspaces.len(), 1);
}

#[test]
fn test_remove_workspace() {
    let mut gis = get_gis("/tmp/test");
    gis.remove_workspace(1);

    assert_eq!(gis.data.workspaces.len(), 0);
}

#[test]
fn test_swap_identity() {
    let mut gis = get_gis("/tmp/test");
    gis.swap_identity(1, true);

    assert_eq!(gis.data.current_identity, Some(SOME_ID.into()));
}

#[test]
fn add_identity_outcomes_name_the_failure() {
    let mut gis = get_gis("/tmp/test");
    assert_eq!(gis.add_identity("Some Author"), Outcome::MissingEmail);
    assert_eq!(gis.add_identity("some@email.com"), Outcome::MissingAuthor);
    assert_eq!(gis.add_identity(""), Outcome::MissingEmail);
    assert_eq!(gis.add_identity("   \t "), Outcome::MissingEmail);
    assert_eq!(gis.data.identities.len(), 1);
}

#[test]
fn id_is_digest_of_author_and_email() {
    let mut gis = empty_gis("/tmp");
    assert_eq!(gis.add_identity("Some Author some@email.com"), Outcome::Added);
    assert_eq!(gis.data.identities[0].id, SOME_ID);
    assert_eq!(gis.data.identities[0].id.len(), 32);
    assert_ne!(gis.data.identities[0].id, "Some Author some@email.com");
}

#[test]
fn same_text_gives_same_id_and_second_add_is_duplicate() {
    let mut a = empty_gis("/tmp");
    let mut b = get_gis("/tmp");
    assert_eq!(a.add_identity("Jane Doe jane@doe.org"), Outcome::Added);
    assert_eq!(b.add_identity("Jane Doe jane@doe.org"), Outcome::Added);
    assert_eq!(a.data.identities[0].id, b.data.identities[1].id);
    assert_eq!(a.add_identity("Jane Doe jane@doe.org"), Outcome::DuplicateIdentity);
    assert_eq!(a.data.identities.len(), 1);
}

#[test]
fn existing_identity_is_duplicate() {
    let mut gis = get_gis("/tmp");
    assert_eq!(gis.add_identity("Some Author some@email.com"), Outcome::DuplicateIdentity);
    assert_eq!(gis.data.identities.len(), 1);
}

#[test]
fn words_are_split_on_any_whitespace() {
    let mut gis = empty_gis("/tmp");
    assert_eq!(gis.add_identity("  Jane\t  Q.\nDoe   jane@doe.org  "), Outcome::Added);
    assert_eq!(gis.data.identities[0].author, "Jane Q. Doe");
    assert_eq!(gis.data.identities[0].email, "jane@doe.org");
    let id = md5::compute("Jane Q. Doe jane@doe.org");
    assert_eq!(gis.data.identities[0].id, format!("{:x}", id));
}

#[test]
fn first_word_with_at_is_the_email_and_others_are_dropped() {
    let mut gis = empty_gis("/tmp");
    assert_eq!(gis.add_identity("a@b Jane c@d Doe"), Outcome::Added);
    assert_eq!(gis.data.identities[0].author, "Jane Doe");
    assert_eq!(gis.data.identities[0].email, "a@b");
}

#[test]
fn first_identity_becomes_current_and_second_does_not() {
    let mut gis = empty_gis("/tmp");
    assert_eq!(gis.data.current_identity, None);
    gis.add_identity("Jane Doe jane@doe.org");
    let first = gis.data.identities[0].id.clone();
    assert_eq!(gis.data.current_identity, Some(first.clone()));
    gis.add_identity("John Roe john@roe.org");
    assert_eq!(gis.data.identities.len(), 2);
    assert_eq!(gis.data.current_identity, Some(first));
}

fn three_identities() -> Gis {
    let mut gis = empty_gis("/tmp");
    gis.add_identity("A a@a");
    gis.add_identity("B b@b");
    gis.add_identity("C c@c");
    gis
}

#[test]
fn remove_identity_moves_last_into_place() {
    let mut gis = three_identities();
    let removed = gis.remove_identity(1).unwrap();
    assert_eq!(removed.author, "A");
    assert_eq!(gis.data.identities.len(), 2);
    assert_eq!(gis.data.identities[0].author, "C");
    assert_eq!(gis.data.identities[1].author, "B");
}

#[test]
fn remove_last_identity_keeps_the_rest() {
    let mut gis = three_identities();
    gis.remove_identity(3);
    assert_eq!(gis.data.identities.len(), 2);
    assert_eq!(gis.data.identities[0].author, "A");
    assert_eq!(gis.data.identities[1].author, "B");
}

#[test]
fn remove_identity_out_of_range_is_noop() {
    let mut gis = three_identities();
    assert!(gis.remove_identity(0).is_none());
    assert!(gis.remove_identity(4).is_none());
    assert_eq!(gis.data.identities.len(), 3);
}

#[test]
fn remove_identity_keeps_dangling_current() {
    let mut gis = get_gis("/tmp");
    gis.remove_identity(1);
    assert_eq!(gis.data.current_identity, Some(SOME_ID.into()));
    assert_eq!(gis.current_identity(), Lookup::Dangling);
}

#[test]
fn remove_workspace_out_of_range_is_noop() {
    let mut gis = get_gis("/tmp");
    assert!(gis.remove_workspace(0).is_none());
    assert!(gis.remove_workspace(2).is_none());
    assert_eq!(gis.data.workspaces.len(), 1);
}

#[test]
fn add_workspace_needs_current_identity() {
    let mut gis = empty_gis("/tmp");
    assert_eq!(gis.add_workspace("w"), Outcome::NoCurrentIdentity);
    assert_eq!(gis.data.workspaces.len(), 0);
}

#[test]
fn add_workspace_binds_current_identity_and_pwd() {
    let mut gis = get_gis("/home/me/project");
    assert_eq!(gis.add_workspace(""), Outcome::EmptyName);
    assert_eq!(gis.add_workspace("proj"), Outcome::Added);
    let w = &gis.data.workspaces[1];
    assert_eq!(w.name, "proj");
    assert_eq!(w.path, "/home/me/project");
    assert_eq!(w.identity, SOME_ID);
}

#[test]
fn swap_identity_depends_on_configuration() {
    let mut gis = three_identities();
    let first = gis.data.identities[0].id.clone();
    let second = gis.data.identities[1].id.clone();
    assert_eq!(gis.swap_identity(2, false), Outcome::ConfigFailed);
    assert_eq!(gis.data.current_identity, Some(first));
    assert_eq!(gis.swap_identity(0, true), Outcome::InvalidIndex);
    assert_eq!(gis.swap_identity(4, true), Outcome::InvalidIndex);
    assert_eq!(gis.swap_identity(2, true), Outcome::Swapped);
    assert_eq!(gis.data.current_identity, Some(second));
}

#[test]
fn identity_at_is_one_based() {
    let gis = three_identities();
    assert!(gis.identity_at(0).is_none());
    assert_eq!(gis.identity_at(1).unwrap().author, "A");
    assert_eq!(gis.identity_at(3).unwrap().author, "C");
    assert!(gis.identity_at(4).is_none());
}

#[test]
fn auto_swap_in_workspace_of_other_identity() {
    let mut gis = get_gis("/work");
    gis.add_identity("Work Person me@work.com");
    gis.swap_identity(2, true);
    let work = gis.data.identities[1].id.clone();
    // current is the work identity; /tmp/test is bound to the first identity
    assert_eq!(gis.workspace_identity_swap("/tmp/test"), Some(1));
    assert_eq!(gis.workspace_identity_swap("/elsewhere"), None);
    assert_eq!(gis.data.current_identity, Some(work));
    gis.swap_identity(1, true);
    assert_eq!(gis.data.current_identity, Some(SOME_ID.into()));
    assert_eq!(gis.workspace_identity_swap("/tmp/test"), None);
}

#[test]
fn auto_swap_ignores_dangling_workspace() {
    let mut gis = get_gis("/tmp");
    gis.add_identity("Other One other@one.org");
    gis.swap_identity(2, true);
    gis.remove_identity(1);
    assert_eq!(gis.workspace_identity_swap("/tmp/test"), None);
}

#[test]
fn has_identity_and_workspace_needs_both() {
    assert!(get_gis("/tmp").has_identity_and_workspace());
    let mut gis = empty_gis("/tmp");
    assert!(!gis.has_identity_and_workspace());
    gis.add_identity("A a@a");
    assert!(!gis.has_identity_and_workspace());
    gis.add_workspace("w");
    assert!(gis.has_identity_and_workspace());
}

#[test]
fn current_identity_lookup() {
    assert_eq!(empty_gis("/tmp").current_identity(), Lookup::Unset);
    assert_eq!(get_gis("/tmp").current_identity(), Lookup::Found(0));
}

#[test]
fn list_workspaces_reports_bound_identity() {
    let mut gis = get_gis("/tmp");
    gis.add_identity("B b@b");
    gis.swap_identity(2, true);
    gis.add_workspace("second");
    let listed = gis.list_workspaces();
    assert_eq!(listed.len(), 2);
    assert_eq!(listed[0].0.name, "test");
    assert_eq!(listed[0].1, Some(0));
    assert_eq!(listed[1].1, Some(1));
    gis.remove_identity(1);
    let listed = gis.list_workspaces();
    assert_eq!(listed[0].1, None);
    assert_eq!(listed[1].1, Some(0));
}

#[test]
fn list_identities_in_order() {
    let gis = three_identities();
    let ids = gis.list_identities();
    let authors: Vec<&str> = ids.iter().map(|i| i.author.as_str()).collect();
    assert_eq!(authors, vec!["A", "B", "C"]);
}

#[test]
fn missing_store_gives_empty_registry() {
    let gis = Gis::from_config(None, "/nowhere/.gisrc".into(), "/tmp".into());
    assert!(gis.data.identities.is_empty());
    assert!(gis.data.workspaces.is_empty());
    assert_eq!(gis.data.current_identity, None);
    assert_eq!(gis.config, "/nowhere/.gisrc");
    let d = default_config();
    assert!(d.identities.is_empty() && d.workspaces.is_empty() && d.current_identity.is_none());
}

#[test]
fn stored_registry_is_kept() {
    let gis = Gis::from_config(Some(get_data()), ".gisrc".into(), "/tmp".into());
    assert_eq!(gis.data.identities.len(), 1);
    assert_eq!(gis.data.identities[0].author, "Some Author");
    assert_eq!(gis.data.workspaces[0].path, "/tmp/test");
    assert_eq!(gis.data.current_identity, Some(SOME_ID.into()));
}

#[test]
fn unicode_white_space_separates_words() {
    let text = "Jane\u{a0}Doe\u{3000}jane@doe.org\u{2028}";
    let mut gis = empty_gis("/tmp");
    assert_eq!(gis.add_identity(text), Outcome::Added);
    let expected: Vec<&str> = text.split_whitespace().collect();
    assert_eq!(expected, vec!["Jane", "Doe", "jane@doe.org"]);
    assert_eq!(gis.data.identities[0].author, "Jane Doe");
    assert_eq!(gis.data.identities[0].email, "jane@doe.org");
}
