use bigtwo::lobby::{Lobby, LobbyError};

#[test]
fn test_lobby() {
    let lobby = Lobby::new("host".to_string());

    assert_eq!(lobby.host(), "host");
    assert_eq!(lobby.players().len(), 1);
    assert_eq!(lobby.players()[0], "host");
}

#[test]
fn test_add_player() {
    let mut lobby = Lobby::new("host".to_string());

    assert!(lobby.add_player("player1".to_string()).is_ok());
    assert_eq!(lobby.players().len(), 2);
    assert_eq!(lobby.players()[1], "player1");

    assert!(lobby.add_player("player2".to_string()).is_ok());
    assert_eq!(lobby.players().len(), 3);
    assert_eq!(lobby.players()[2], "player2");

    assert!(lobby.add_player("player3".to_string()).is_ok());
}

#[test]
fn lobby_test_remove_player() {
    let mut lobby = Lobby::new("host".to_string());

    assert!(lobby.add_player("player1".to_string()).is_ok());
    assert!(lobby.add_player("player2".to_string()).is_ok());
    assert!(lobby.add_player("player3".to_string()).is_ok());

    assert_eq!(lobby.remove_player("host").is_ok_and(|_| true), true);
    assert_eq!(lobby.host(), "player1");
    assert_eq!(lobby.players().len(), 3);
}

#[test]
fn lobby_refuses_a_fifth_player_a_second_copy_and_strangers() {
    let mut lobby = Lobby::new("host".to_string());
    assert_eq!(lobby.add_player("host".to_string()), Err(LobbyError::PlayerAlreadyInRoom));
    assert!(!lobby.can_start());
    for name in ["a", "b", "c"] {
        assert!(lobby.add_player(name.to_string()).is_ok());
    }
    assert!(lobby.can_start());
    assert_eq!(lobby.add_player("d".to_string()), Err(LobbyError::RoomFull));
    assert_eq!(lobby.remove_player("zed"), Err(LobbyError::PlayerNotInRoom));
    assert_eq!(lobby.players(), vec!["host", "a", "b", "c"]);
    // Removing someone else keeps the first player as host.
    assert_eq!(lobby.remove_player("b"), Ok("host".to_string()));
    assert_eq!(lobby.players(), vec!["host", "a", "c"]);
}
