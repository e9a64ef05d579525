use std::sync::mpsc::{channel, Receiver, Sender};
use tictactoe::game_controller::join_game;
use tictactoe::handler::{
    connect_client, register_client, register_new_client, unregister_client,
};
use tictactoe::registry::Registry;
use tictactoe::ws::{
    client_msg, disconnect_client, get_game_id_by_client_id, publish_msg_by_game_id,
    publish_msg_to_client, Outgoing,
};
use tictactoe::{Clients, Games};

/// Registries with the given clients, each with a mailbox.
fn connected(ids: &[&str]) -> (Clients<u32>, Games) {
    let mut clients: Clients<u32> = Registry::new();
    for (i, id) in ids.iter().enumerate() {
        assert!(register_client(&mut clients, String::from(*id)));
        assert!(connect_client(&mut clients, id, i as u32));
    }
    (clients, Registry::new())
}

/// What is expected of one message: the text, and the recipients in any
/// order.
fn to(recipients: &[&str], text: &str) -> (Vec<String>, String) {
    let mut recipients: Vec<String> = recipients.iter().map(|id| String::from(*id)).collect();
    recipients.sort();
    (recipients, String::from(text))
}

fn sent(out: Vec<Outgoing>) -> Vec<(Vec<String>, String)> {
    out.into_iter()
        .map(|message| {
            let mut recipients = message.recipients;
            recipients.sort();
            (recipients, message.text)
        })
        .collect()
}

fn say(id: &str, line: &str, clients: &mut Clients<u32>, games: &mut Games) -> Vec<(Vec<String>, String)> {
    sent(client_msg(id, line, clients, games))
}

#[test]
fn two_clients_join_and_play() {
    let (mut clients, mut games) = connected(&["a", "b"]);
    assert_eq!(
        say("a", "join_game", &mut clients, &mut games),
        vec![to(&["a"], "X"), to(&["a"], "waiting_players")]
    );
    assert_eq!(
        say("b", "join_game", &mut clients, &mut games),
        vec![to(&["b"], "O"), to(&["a", "b"], "start_game")]
    );
    assert_eq!(
        say("a", "make_play 1", &mut clients, &mut games),
        vec![to(&["a", "b"], "marked X 1")]
    );
    assert_eq!(
        say("b", "make_play 1", &mut clients, &mut games),
        vec![to(&["a", "b"], "Esta célula já foi preenchida")]
    );
    assert_eq!(
        say("b", "make_play 9", &mut clients, &mut games),
        vec![to(&["a", "b"], "marked O 9")]
    );
}

#[test]
fn a_win_is_announced_and_the_next_round_starts_on_a_clear_board() {
    let (mut clients, mut games) = connected(&["a", "b"]);
    say("a", "join_game", &mut clients, &mut games);
    say("b", "join_game", &mut clients, &mut games);
    assert_eq!(say("a", "make_play 1", &mut clients, &mut games), vec![to(&["a", "b"], "marked X 1")]);
    assert_eq!(say("b", "make_play 4", &mut clients, &mut games), vec![to(&["a", "b"], "marked O 4")]);
    assert_eq!(say("a", "make_play 2", &mut clients, &mut games), vec![to(&["a", "b"], "marked X 2")]);
    assert_eq!(say("b", "make_play 5", &mut clients, &mut games), vec![to(&["a", "b"], "marked O 5")]);
    assert_eq!(say("a", "make_play 3", &mut clients, &mut games), vec![to(&["a", "b"], "winner X")]);
    assert_eq!(
        say("b", "make_play 1", &mut clients, &mut games),
        vec![to(&["a", "b"], "Não é sua vez de jogar")]
    );
    assert_eq!(say("a", "make_play 1", &mut clients, &mut games), vec![to(&["a", "b"], "marked X 1")]);
    assert_eq!(say("b", "make_play 2", &mut clients, &mut games), vec![to(&["a", "b"], "marked O 2")]);
}

#[test]
fn a_draw_is_announced() {
    let (mut clients, mut games) = connected(&["a", "b"]);
    say("a", "join_game", &mut clients, &mut games);
    say("b", "join_game", &mut clients, &mut games);
    let mut last = Vec::new();
    for (i, cell) in [1, 2, 3, 5, 4, 6, 8, 7, 9].iter().enumerate() {
        let player = if i % 2 == 0 { "a" } else { "b" };
        last = say(player, &format!("make_play {}", cell), &mut clients, &mut games);
    }
    assert_eq!(last, vec![to(&["a", "b"], "draw")]);
    assert_eq!(say("a", "make_play 5", &mut clients, &mut games), vec![to(&["a", "b"], "marked X 5")]);
}

#[test]
fn a_disconnect_leaves_the_other_player_waiting_as_x() {
    let (mut clients, mut games) = connected(&["a", "b"]);
    say("a", "join_game", &mut clients, &mut games);
    say("b", "join_game", &mut clients, &mut games);
    say("a", "make_play 1", &mut clients, &mut games);
    let game_id = get_game_id_by_client_id("b", &clients).unwrap();
    assert_eq!(
        sent(disconnect_client("a", &mut clients, &mut games)),
        vec![to(&["b"], "waiting_players")]
    );
    assert!(!clients.contains_key("a"));
    assert_eq!(games.len(), 1);
    assert_eq!(games.get(&game_id).unwrap().number_of_players(), 1);
    assert_eq!(games.get(&game_id).unwrap().symbol_of("b"), Some('X'));
    assert_eq!(say("b", "make_play 1", &mut clients, &mut games), vec![to(&["b"], "marked X 1")]);
}

#[test]
fn the_last_disconnect_deletes_the_match() {
    let (mut clients, mut games) = connected(&["a"]);
    say("a", "join_game", &mut clients, &mut games);
    assert_eq!(sent(disconnect_client("a", &mut clients, &mut games)), vec![to(&[], "waiting_players")]);
    assert_eq!(games.len(), 0);
    assert_eq!(clients.len(), 0);
}

#[test]
fn a_disconnect_outside_a_match_tells_nobody() {
    let (mut clients, mut games) = connected(&["a", "b"]);
    say("a", "join_game", &mut clients, &mut games);
    assert_eq!(sent(disconnect_client("b", &mut clients, &mut games)), vec![]);
    assert!(!clients.contains_key("b"));
    assert_eq!(sent(disconnect_client("nobody", &mut clients, &mut games)), vec![]);
    assert_eq!(clients.len(), 1);
    assert_eq!(games.len(), 1);
}

#[test]
fn a_third_client_waits_in_a_match_of_its_own() {
    let (mut clients, mut games) = connected(&["a", "b", "c"]);
    say("a", "join_game", &mut clients, &mut games);
    say("b", "join_game", &mut clients, &mut games);
    assert_eq!(
        say("c", "join_game", &mut clients, &mut games),
        vec![to(&["c"], "X"), to(&["c"], "waiting_players")]
    );
    assert_eq!(say("c", "make_play 5", &mut clients, &mut games), vec![to(&["c"], "marked X 5")]);
    assert_eq!(say("a", "make_play 5", &mut clients, &mut games), vec![to(&["a", "b"], "marked X 5")]);
}

#[test]
fn joining_twice_is_answered_to_the_client_alone() {
    let (mut clients, mut games) = connected(&["a", "b"]);
    say("a", "join_game", &mut clients, &mut games);
    say("b", "join_game", &mut clients, &mut games);
    assert_eq!(
        say("b", "join_game", &mut clients, &mut games),
        vec![to(&["b"], "Esse jogador já está em uma partida")]
    );
}

#[test]
fn a_move_without_a_match_is_answered_to_the_client_alone() {
    let (mut clients, mut games) = connected(&["a", "b"]);
    say("a", "join_game", &mut clients, &mut games);
    assert_eq!(
        say("b", "make_play 1", &mut clients, &mut games),
        vec![to(&["b"], "Não foi encontrado nenhum jogador com esse ID")]
    );
    assert_eq!(
        say("nobody", "make_play 1", &mut clients, &mut games),
        vec![to(&[], "Não foi encontrado nenhum jogador com esse ID")]
    );
}

#[test]
fn lines_that_are_no_command_are_answered_to_the_client_alone() {
    let (mut clients, mut games) = connected(&["a", "b"]);
    say("a", "join_game", &mut clients, &mut games);
    say("b", "join_game", &mut clients, &mut games);
    assert_eq!(
        say("a", "resign", &mut clients, &mut games),
        vec![to(&["a"], "Comando resign inválido")]
    );
    assert_eq!(say("a", "", &mut clients, &mut games), vec![to(&["a"], "Comando  inválido")]);
    assert_eq!(
        say("b", "make_play 12", &mut clients, &mut games),
        vec![to(&["b"], "Parâmetros para o comando 'make_play 12' são inválidos")]
    );
    assert_eq!(
        say("b", "make_play x\n", &mut clients, &mut games),
        vec![to(&["b"], "Parâmetros para o comando 'make_play x\n' são inválidos")]
    );
    assert_eq!(
        say("a", "make_play", &mut clients, &mut games),
        vec![to(&["a"], "Comando make_play inválido")]
    );
    assert_eq!(say("a", "make_play 1", &mut clients, &mut games), vec![to(&["a", "b"], "marked X 1")]);
}

#[test]
fn a_ping_is_not_a_command() {
    let (mut clients, mut games) = connected(&["a"]);
    assert_eq!(say("a", "ping", &mut clients, &mut games), vec![]);
    assert_eq!(say("a", "ping\n", &mut clients, &mut games), vec![]);
    assert_eq!(games.len(), 0);
    assert_eq!(
        say("a", "ping ", &mut clients, &mut games),
        vec![to(&["a"], "Comando ping  inválido")]
    );
    assert_eq!(
        say("a", "ping\n\n", &mut clients, &mut games),
        vec![to(&["a"], "Comando ping\n\n inválido")]
    );
}

#[test]
fn clients_without_a_mailbox_are_skipped() {
    let mut clients: Clients<u32> = Registry::new();
    let mut games: Games = Registry::new();
    assert!(register_client(&mut clients, String::from("a")));
    assert!(register_client(&mut clients, String::from("b")));
    assert!(connect_client(&mut clients, "b", 7));
    assert_eq!(
        say("a", "join_game", &mut clients, &mut games),
        vec![to(&[], "X"), to(&[], "waiting_players")]
    );
    assert_eq!(
        say("b", "join_game", &mut clients, &mut games),
        vec![to(&["b"], "O"), to(&["b"], "start_game")]
    );
    assert_eq!(say("a", "make_play 3", &mut clients, &mut games), vec![to(&["b"], "marked X 3")]);
}

#[test]
fn a_message_to_a_match_goes_to_its_connected_members() {
    let (mut clients, mut games) = connected(&["a", "b", "c", "d"]);
    for id in ["a", "b", "c"] {
        join_game(id, &mut clients, &mut games);
    }
    let first = get_game_id_by_client_id("a", &clients).unwrap();
    let second = get_game_id_by_client_id("c", &clients).unwrap();
    assert_eq!(get_game_id_by_client_id("b", &clients), Some(first.clone()));
    assert_eq!(get_game_id_by_client_id("d", &clients), None);
    assert_eq!(get_game_id_by_client_id("nobody", &clients), None);
    assert_eq!(
        sent(vec![publish_msg_by_game_id(&first, "hello", &clients)]),
        vec![to(&["a", "b"], "hello")]
    );
    assert_eq!(
        sent(vec![publish_msg_by_game_id(&second, "hello", &clients)]),
        vec![to(&["c"], "hello")]
    );
    assert_eq!(
        sent(vec![publish_msg_by_game_id("no such match", "hello", &clients)]),
        vec![to(&[], "hello")]
    );
    assert_eq!(
        sent(vec![publish_msg_to_client("d", "hello", &clients)]),
        vec![to(&["d"], "hello")]
    );
    assert_eq!(
        sent(vec![publish_msg_to_client("nobody", "hello", &clients)]),
        vec![to(&[], "hello")]
    );
}

#[test]
fn registering_creates_a_blank_record() {
    let mut clients: Clients<u32> = Registry::new();
    assert!(register_client(&mut clients, String::from("a")));
    assert!(!register_client(&mut clients, String::from("a")));
    assert_eq!(clients.len(), 1);
    let record = clients.get("a").unwrap();
    assert_eq!(record.game_id, None);
    assert_eq!(record.sender, None);
}

#[test]
fn registering_again_keeps_the_record() {
    let mut clients: Clients<u32> = Registry::new();
    let mut games: Games = Registry::new();
    assert!(register_client(&mut clients, String::from("a")));
    assert!(connect_client(&mut clients, "a", 1));
    join_game("a", &mut clients, &mut games);
    assert!(!register_client(&mut clients, String::from("a")));
    let record = clients.get("a").unwrap();
    assert!(record.game_id.is_some());
    assert_eq!(record.sender, Some(1));
}

#[test]
fn a_new_client_gets_a_drawn_identity() {
    let mut clients: Clients<u32> = Registry::new();
    let first = register_new_client(&mut clients).unwrap();
    let second = register_new_client(&mut clients).unwrap();
    assert_ne!(first, second);
    assert_eq!(first.chars().count(), 32);
    assert!(first.chars().all(|c| matches!(c, '0'..='9' | 'a'..='f')));
    assert_eq!(first.chars().nth(12), Some('4'));
    assert_eq!(clients.len(), 2);
    assert!(clients.contains_key(&first));
    assert!(clients.contains_key(&second));
    assert_eq!(clients.get(&first).unwrap().game_id, None);
}

#[test]
fn unregistering_deletes_the_record() {
    let mut clients: Clients<u32> = Registry::new();
    assert!(register_client(&mut clients, String::from("a")));
    assert!(unregister_client(&mut clients, "a"));
    assert!(!unregister_client(&mut clients, "a"));
    assert_eq!(clients.len(), 0);
}

#[test]
fn connecting_attaches_the_mailbox_and_keeps_the_binding() {
    let mut clients: Clients<u32> = Registry::new();
    let mut games: Games = Registry::new();
    assert!(!connect_client(&mut clients, "a", 1));
    assert_eq!(clients.len(), 0);
    assert!(register_client(&mut clients, String::from("a")));
    assert!(connect_client(&mut clients, "a", 1));
    join_game("a", &mut clients, &mut games);
    let game_id = get_game_id_by_client_id("a", &clients);
    assert!(connect_client(&mut clients, "a", 2));
    assert_eq!(clients.get("a").unwrap().sender, Some(2));
    assert_eq!(get_game_id_by_client_id("a", &clients), game_id);
}

/// Puts each message into the mailboxes of its recipients, as a server does.
fn deliver(out: Vec<Outgoing>, clients: &Clients<Sender<String>>) {
    for message in out {
        for id in &message.recipients {
            if let Some(mailbox) = clients.get(id).and_then(|client| client.sender.as_ref()) {
                let _ = mailbox.send(message.text.clone());
            }
        }
    }
}

fn received(mailbox: &Receiver<String>) -> Vec<String> {
    mailbox.try_iter().collect()
}

#[test]
fn messages_reach_the_mailboxes() {
    let mut clients: Clients<Sender<String>> = Registry::new();
    let mut games: Games = Registry::new();
    let (to_a, a) = channel();
    let (to_b, b) = channel();
    assert!(register_client(&mut clients, String::from("a")));
    assert!(register_client(&mut clients, String::from("b")));
    assert!(connect_client(&mut clients, "a", to_a));
    assert!(connect_client(&mut clients, "b", to_b));

    deliver(client_msg("a", "join_game", &mut clients, &mut games), &clients);
    assert_eq!(received(&a), vec!["X", "waiting_players"]);
    assert_eq!(received(&b), Vec::<String>::new());

    deliver(client_msg("b", "join_game", &mut clients, &mut games), &clients);
    assert_eq!(received(&a), vec!["start_game"]);
    assert_eq!(received(&b), vec!["O", "start_game"]);

    deliver(client_msg("a", "make_play 1", &mut clients, &mut games), &clients);
    assert_eq!(received(&a), vec!["marked X 1"]);
    assert_eq!(received(&b), vec!["marked X 1"]);

    deliver(client_msg("b", "nonsense", &mut clients, &mut games), &clients);
    assert_eq!(received(&a), Vec::<String>::new());
    assert_eq!(received(&b), vec!["Comando nonsense inválido"]);

    drop(b);
    deliver(client_msg("b", "make_play 2", &mut clients, &mut games), &clients);
    assert_eq!(received(&a), vec!["marked O 2"]);

    deliver(disconnect_client("b", &mut clients, &mut games), &clients);
    assert_eq!(received(&a), vec!["waiting_players"]);
    assert!(!clients.contains_key("b"));
}
