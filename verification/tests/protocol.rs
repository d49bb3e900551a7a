//! Tests for the handle codec, the frame codec, the mailbox flag
//! protocol and the string helpers.

use serde_ipc::codec::{
    command_code, command_of_code, decode_req_frame, encode_req_frame, Command,
};
use serde_ipc::handle::{combine_sig, parse_handle, render_handle, split_sig};
use serde_ipc::mailbox::{
    acquire_turn_matches, decode_res_frame, encode_res_frame, release_turn, set_mask, test_mask,
    unset_mask, SHM_RES_MAX_SIZE,
};
use serde_ipc::server::{handshake_len_ok, handshake_trigger_ok, mailbox_names};
use serde_ipc::strutil::{concat2, concat3, split_char, trim};

#[test]
fn combine_and_split_round_trip() {
    let h = combine_sig(1, 2);
    assert_eq!(h, 0x1_0000_0002u64);
    let (g, u) = split_sig(h);
    assert_eq!(g, 1);
    assert_eq!(u, 2);
    let h2 = combine_sig(0xdead_beef, 0x1234_5678);
    let (g2, u2) = split_sig(h2);
    assert_eq!(g2, 0xdead_beef);
    assert_eq!(u2, 0x1234_5678);
}

#[test]
fn render_handle_decimal() {
    assert_eq!(render_handle(0).as_str(), "0");
    assert_eq!(render_handle(7).as_str(), "7");
    assert_eq!(render_handle(4294967298).as_str(), "4294967298");
    assert_eq!(render_handle(u64::MAX).as_str(), "18446744073709551615");
}

#[test]
fn parse_handle_values() {
    assert_eq!(parse_handle("0"), 0);
    assert_eq!(parse_handle("4294967298"), 4294967298);
    assert_eq!(parse_handle("+41"), 41);
    assert_eq!(parse_handle("18446744073709551615"), u64::MAX);
    // anything that is not a numeral in range reads as zero
    assert_eq!(parse_handle(""), 0);
    assert_eq!(parse_handle("+"), 0);
    assert_eq!(parse_handle("12x"), 0);
    assert_eq!(parse_handle("-5"), 0);
    assert_eq!(parse_handle("18446744073709551616"), 0);
}

#[test]
fn render_then_parse_is_identity() {
    for v in [0u64, 1, 9, 10, 4294967298, u64::MAX] {
        let s = render_handle(v);
        assert_eq!(parse_handle(s.as_str()), v);
    }
}

#[test]
fn command_codes_round_trip() {
    let all = [
        Command::Alive,
        Command::Register,
        Command::Unregister,
        Command::Call,
        Command::OneWay,
        Command::ChainCall,
    ];
    for c in all {
        assert_eq!(command_of_code(command_code(c)), Some(c));
    }
    assert_eq!(command_code(Command::Alive), 0x00);
    assert_eq!(command_code(Command::ChainCall), 0x05);
    assert_eq!(command_of_code(0x06), None);
    assert_eq!(command_of_code(0xffff), None);
}

#[test]
fn req_frame_round_trip() {
    let payload: Vec<u8> = vec![10, 20, 30, 40, 50];
    let frame = encode_req_frame(0xabcd_1234, Command::Call, &payload).unwrap();
    let (header, body) = decode_req_frame(&frame).unwrap();
    assert_eq!(header.seq, 0xabcd_1234);
    assert_eq!(command_of_code(header.command), Some(Command::Call));
    assert_eq!(header.size, 5);
    assert_eq!(body, payload);
}

#[test]
fn req_frame_too_short_is_refused() {
    let bytes: Vec<u8> = vec![1, 2, 3];
    assert!(decode_req_frame(&bytes).is_none());
}

#[test]
fn res_frame_round_trip() {
    let payload: Vec<u8> = vec![7; 1000];
    let frame = encode_res_frame(99, &payload).unwrap();
    let (seq, body) = decode_res_frame(&frame).unwrap();
    assert_eq!(seq, 99);
    assert_eq!(body, payload);
}

#[test]
fn res_frame_largest_fitting_payload() {
    let payload: Vec<u8> = vec![0xaa; SHM_RES_MAX_SIZE - 8];
    let frame = encode_res_frame(1, &payload).unwrap();
    let (seq, body) = decode_res_frame(&frame).unwrap();
    assert_eq!(seq, 1);
    assert_eq!(body.len(), SHM_RES_MAX_SIZE - 8);
}

#[test]
fn res_frame_oversize_payload_is_refused_before_writing() {
    let payload: Vec<u8> = vec![0xaa; SHM_RES_MAX_SIZE - 7];
    assert!(encode_res_frame(1, &payload).is_none());
}

#[test]
fn mask_bits() {
    let mut flag: u8 = 0x03;
    assert!(!test_mask(&flag));
    set_mask(&mut flag);
    assert_eq!(flag, 0x83);
    assert!(test_mask(&flag));
    unset_mask(&mut flag);
    assert_eq!(flag, 0x03);
    assert!(!test_mask(&flag));
}

#[test]
fn turn_flag_alternation() {
    // a reader done with its turn makes the next write pending: only the
    // writer may proceed; a writer done writing hands the frame to the
    // reader
    let mut flag: u8 = 0;
    release_turn(&mut flag, true);
    assert!(acquire_turn_matches(flag, true));
    assert!(!acquire_turn_matches(flag, false));
    release_turn(&mut flag, false);
    assert!(!acquire_turn_matches(flag, true));
    assert!(acquire_turn_matches(flag, false));
}

#[test]
fn bootstrap_id_and_mailbox_names() {
    assert!(handshake_len_ok(16));
    assert!(!handshake_len_ok(0));
    assert!(!handshake_len_ok(17));
    // the third-phase trigger may carry anything, but not nothing
    assert!(handshake_trigger_ok(1));
    assert!(handshake_trigger_ok(17));
    assert!(!handshake_trigger_ok(0));
    let id = String::from("abcdefgh01234567");
    let (req, res) = mailbox_names(&id);
    assert_eq!(req.as_str(), "abcdefgh01234567_req");
    assert_eq!(res.as_str(), "abcdefgh01234567_res");
}

#[test]
fn split_words() {
    let s = String::from("systemctl status foo");
    let parts = split_char(&s, ' ');
    assert_eq!(parts.len(), 3);
    assert_eq!(parts[0].as_str(), "systemctl");
    assert_eq!(parts[1].as_str(), "status");
    assert_eq!(parts[2].as_str(), "foo");
}

#[test]
fn split_keeps_empty_tokens() {
    let s = String::from("a@@b");
    let parts = split_char(&s, '@');
    assert_eq!(parts.len(), 3);
    assert_eq!(parts[0].as_str(), "a");
    assert_eq!(parts[1].as_str(), "");
    assert_eq!(parts[2].as_str(), "b");
    let empty = String::from("");
    let parts2 = split_char(&empty, '@');
    assert_eq!(parts2.len(), 1);
    assert_eq!(parts2[0].as_str(), "");
}

#[test]
fn trim_surrounding_whitespace() {
    let s = String::from("  \tlib.so \n");
    assert_eq!(trim(&s).as_str(), "lib.so");
    let t = String::from("plain");
    assert_eq!(trim(&t).as_str(), "plain");
    let w = String::from("   ");
    assert_eq!(trim(&w).as_str(), "");
}

#[test]
fn concat_pieces() {
    assert_eq!(concat2("ab", "cd").as_str(), "abcd");
    assert_eq!(concat3("a'", "b", "'c").as_str(), "a'b'c");
}

#[test]
fn res_frame_empty_payload_round_trip() {
    // a liveness response carries its sequence number and nothing else
    let frame = encode_res_frame(0x0badcafe, &Vec::new()).unwrap();
    let (seq, body) = decode_res_frame(&frame).unwrap();
    assert_eq!(seq, 0x0badcafe);
    assert!(body.is_empty());
}
