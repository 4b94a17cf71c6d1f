use requirements_core::comment::Comment;
use requirements_core::requirement::{Requirement, User};
use requirements_core::store::{RequirementsStore, StoreError};

fn comment(text: &str) -> Comment {
    Comment::new("ann".to_string(), text.to_string())
}

#[test]
fn reply_goes_to_nested_parent() {
    let mut req = Requirement::new("R".to_string(), String::new());
    let top = comment("top");
    let top_id = top.id;
    req.add_comment(top);
    let child = Comment::new_reply("bob".to_string(), "child".to_string(), top_id);
    let child_id = child.id;
    assert!(req.add_reply(top_id, child).is_ok());
    let grandchild = Comment::new_reply("cy".to_string(), "grandchild".to_string(), child_id);
    let gc_id = grandchild.id;
    assert!(req.add_reply(child_id, grandchild).is_ok());
    assert_eq!(req.comments.len(), 1);
    assert_eq!(req.comments[0].replies.len(), 1);
    assert_eq!(req.comments[0].replies[0].replies[0].id, gc_id);
    assert!(req.comments[0].holds(gc_id));
    let found = req.find_comment_mut(&gc_id).unwrap();
    found.content = "edited".to_string();
    assert_eq!(req.comments[0].replies[0].replies[0].content, "edited");
}

#[test]
fn reply_to_missing_parent_is_refused() {
    let mut req = Requirement::new("R".to_string(), String::new());
    req.add_comment(comment("top"));
    let r = req.add_reply(12345, comment("orphan"));
    assert!(matches!(r, Err(StoreError::ParentCommentNotFound)));
    assert_eq!(r.unwrap_err().message(), "Parent comment not found");
    assert!(req.find_comment_mut(&12345).is_none());
}

#[test]
fn delete_top_level_and_nested_comments() {
    let mut req = Requirement::new("R".to_string(), String::new());
    let a = comment("a");
    let a_id = a.id;
    let b = comment("b");
    let b_id = b.id;
    req.add_comment(a);
    req.add_comment(b);
    let r1 = comment("r1");
    let r1_id = r1.id;
    req.add_reply(b_id, r1).unwrap();
    let r2 = comment("r2");
    let r2_id = r2.id;
    req.add_reply(r1_id, r2).unwrap();
    assert!(req.delete_comment(&r2_id).is_ok());
    assert!(req.comments[1].replies[0].replies.is_empty());
    assert!(req.delete_comment(&a_id).is_ok());
    assert_eq!(req.comments.len(), 1);
    assert_eq!(req.comments[0].id, b_id);
    let e = req.delete_comment(&a_id);
    assert!(matches!(e, Err(StoreError::CommentNotFound)));
    assert_eq!(e.unwrap_err().message(), "Comment not found");
}

#[test]
fn reactions_toggle_and_count() {
    let mut c = comment("x");
    assert!(c.add_reaction("thumbs_up", "ann"));
    assert!(!c.add_reaction("thumbs_up", "ann"));
    assert!(c.add_reaction("thumbs_up", "bob"));
    assert!(c.add_reaction("heart", "bob"));
    assert!(c.has_reaction("heart", "bob"));
    let mut counts = c.reaction_counts();
    counts.sort();
    assert_eq!(counts, vec![("heart".to_string(), 1), ("thumbs_up".to_string(), 2)]);
    assert!(!c.toggle_reaction("heart", "bob"));
    assert!(!c.has_reaction("heart", "bob"));
    assert!(c.toggle_reaction("heart", "bob"));
    assert!(c.remove_reaction("thumbs_up", "ann"));
    assert!(!c.remove_reaction("thumbs_up", "ann"));
}

#[test]
fn mutable_lookups_change_the_store() {
    let mut store = RequirementsStore::new();
    let mut r = Requirement::new("R".to_string(), String::new());
    r.spec_id = Some("FR-001".to_string());
    let id = r.id;
    store.add_requirement(r);
    store.get_requirement_by_id_mut(&id).unwrap().title = "Renamed".to_string();
    assert_eq!(store.requirements[0].title, "Renamed");
    store.get_requirement_by_spec_id_mut("FR-001").unwrap().owner = "ann".to_string();
    assert_eq!(store.requirements[0].owner, "ann");
    assert!(store.get_requirement_by_spec_id_mut("FR-002").is_none());
    assert!(store.get_requirement_by_id_mut(&(id ^ 1)).is_none());

    let u = User::new_with_spec_id("Ann".to_string(), "a@x".to_string(), "ann".to_string(), "$USER-001".to_string());
    let uid = u.id;
    store.add_user(u);
    store.find_user_by_spec_id_mut("$USER-001").unwrap().name = "Anna".to_string();
    assert_eq!(store.users[0].name, "Anna");
    store.get_user_by_id_mut(&uid).unwrap().email = "anna@x".to_string();
    assert_eq!(store.users[0].email, "anna@x");
    assert!(store.find_user_by_spec_id_mut("$USER-002").is_none());
}
