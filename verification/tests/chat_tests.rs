use tl_parser::chat::{Channel, Chat, Group, User};

#[test]
fn user_chat_accessors() {
    let chat = Chat::User(User {
        id: 7,
        access_hash: Some(99),
        first_name: "Alice".to_string(),
    });
    assert_eq!(chat.id(), 7);
    assert_eq!(chat.access_hash(), Some(99));
    assert_eq!(chat.name(), "Alice");
}

#[test]
fn group_chat_accessors() {
    let chat = Chat::Group(Group {
        id: -42,
        access_hash: None,
        title: "board games".to_string(),
    });
    assert_eq!(chat.id(), -42);
    assert_eq!(chat.access_hash(), None);
    assert_eq!(chat.name(), "board games");
}

#[test]
fn channel_chat_accessors() {
    let chat = Chat::Channel(Channel {
        id: 1000,
        access_hash: Some(-1),
        title: "".to_string(),
    });
    assert_eq!(chat.id(), 1000);
    assert_eq!(chat.access_hash(), Some(-1));
    assert_eq!(chat.name(), "");
}
