use wallswitch::{bytes_to_numbers, get_pids, kill_app, kill_other_instances, text_to_numbers};

#[test]
fn pgrep_pids() {
    let cmd_pgrep = r#"

        123

        abc

        d

        some invalid bytes: \xF0\x90\x80World

        456 xxx 78 44aaa 9

        fgh 


        10
        
        "#;

    println!("cmd_pgrep: '{cmd_pgrep}'\n");

    let bytes: Vec<u8> = cmd_pgrep.bytes().collect();

    println!("bytes: {bytes:?}\n");

    let pgrep_stdout: Vec<u32> = bytes_to_numbers(&bytes);

    println!("pgrep_stdout: {pgrep_stdout:?}");

    assert_eq!(pgrep_stdout, vec![123, 456, 78, 9, 10])
}

#[test]
fn numbers_among_ill_formed_bytes() {
    let bytes: Vec<u8> = vec![b'1', b'2', b' ', 0xF0, 0x90, 0x80, b'7', b'\n', b'+', b'3', b' ', b'-', b'4'];
    assert_eq!(bytes_to_numbers(&bytes), vec![12, 3]);
}

#[test]
fn numbers_in_a_text() {
    assert_eq!(text_to_numbers("12 老虎 7\n+3 -4 1x"), vec![12, 7, 3]);
    assert_eq!(text_to_numbers(""), Vec::<u32>::new());
    assert_eq!(text_to_numbers("\u{fffd}1 2\u{fffd} 3"), vec![3]);
}

#[test]
fn numbers_must_fit_32_bits() {
    assert_eq!(bytes_to_numbers(b"4294967295 4294967296 0"), vec![4294967295, 0]);
    assert_eq!(bytes_to_numbers(b""), Vec::<u32>::new());
}

#[test]
fn pids_are_sorted_and_unique() {
    let pids = get_pids(b"30\n10\n20\n", b"20 40 10");
    assert_eq!(pids, vec![10, 20, 30, 40]);
    assert_eq!(get_pids(b"", b"no number"), Vec::<u32>::new());
}

#[test]
fn kill_command_names_the_process() {
    let command = kill_app(4321);
    assert_eq!(command.program, "kill");
    assert_eq!(command.arguments, ["-9", "4321"]);
}

#[test]
fn the_running_process_is_spared() {
    let commands = kill_other_instances(&[10, 20, 30], 20);
    assert_eq!(commands.len(), 2);
    assert_eq!(commands[0].arguments, ["-9", "10"]);
    assert_eq!(commands[1].arguments, ["-9", "30"]);
    assert!(kill_other_instances(&[20], 20).is_empty());
}
