use socket_io_emitter::channel::address;

fn strings(items: &[&str]) -> Vec<String> {
    items.iter().map(|s| s.to_string()).collect()
}

#[test]
fn no_room_gives_the_namespace_channel() {
    assert_eq!("socket.io#/#", address("socket.io", "/", &vec![]));
    assert_eq!("p#n#", address("p", "n", &vec![]));
}

#[test]
fn one_room_gives_a_channel_of_its_own() {
    assert_eq!(
        "socket.io#/#room1#",
        address("socket.io", "/", &strings(&["room1"]))
    );
    assert_eq!("p#n#r#", address("p", "n", &strings(&["r"])));
}

#[test]
fn several_rooms_give_the_namespace_channel() {
    assert_eq!(
        "socket.io#/#",
        address("socket.io", "/", &strings(&["room1", "room2"]))
    );
    assert_eq!("p#n#", address("p", "n", &strings(&["a", "b", "c"])));
    assert_eq!("p#n#", address("p", "n", &strings(&["r", "r"])));
}

#[test]
fn custom_prefix_and_namespace() {
    assert_eq!(
        "chat#/admin#lobby#",
        address("chat", "/admin", &strings(&["lobby"]))
    );
    assert_eq!("chat#/admin#", address("chat", "/admin", &vec![]));
}

#[test]
fn parts_are_taken_as_they_are() {
    assert_eq!("p#n##", address("p", "n", &strings(&[""])));
    assert_eq!("p##r#", address("p", "", &strings(&["r"])));
    assert_eq!("a#b#c#d#e#", address("a#b", "c", &strings(&["d#e"])));
    assert_eq!("préfixe#/é#salle#", address("préfixe", "/é", &strings(&["salle"])));
}
