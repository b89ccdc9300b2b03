use acceptor::connect::extract::online_state::AuthServer;
use acceptor::connect::extract::IntoPacket;
use acceptor::im::auth::{padding_panics, strip_pkcs_padding, AuthError, TokenAuthServer, IV, KEY};
use acceptor::im::client::login_payload;
use acceptor::im::packet::{Headers, Packet, Payload};
use bytes::BufMut;
use crypto::{aes, blockmodes, buffer::{self, ReadBuffer, WriteBuffer}};

fn encrypt_bytes(data: &[u8]) -> String {
    let mut encryptor = aes::cbc_encryptor(aes::KeySize::KeySize128, &KEY[..], &IV[..], blockmodes::PkcsPadding);
    let mut final_result = Vec::<u8>::new();
    let mut read_buffer = buffer::RefReadBuffer::new(data);
    let mut out = [0; 128];
    let mut write_buffer = buffer::RefWriteBuffer::new(&mut out);
    loop {
        let result = encryptor.encrypt(&mut read_buffer, &mut write_buffer, true).unwrap();
        final_result.extend(write_buffer.take_read_buffer().take_remaining().iter().map(|&i| i));
        match result {
            buffer::BufferResult::BufferUnderflow => break,
            buffer::BufferResult::BufferOverflow => {}
        }
    }
    base64::encode(final_result)
}

fn encrypt_blocks(data: &[u8]) -> String {
    let mut encryptor = aes::cbc_encryptor(aes::KeySize::KeySize128, &KEY[..], &IV[..], blockmodes::NoPadding);
    let mut out = vec![0u8; data.len()];
    let mut read_buffer = buffer::RefReadBuffer::new(data);
    let mut write_buffer = buffer::RefWriteBuffer::new(&mut out);
    encryptor.encrypt(&mut read_buffer, &mut write_buffer, true).unwrap();
    base64::encode(out)
}

fn encrypt(user_id: u64) -> String {
    let mut buf = Vec::with_capacity(12);
    buf.put_u64(user_id);
    buf.put_u16(32);
    buf.put_u16(32);
    encrypt_bytes(&buf)
}

fn login(request_id: u64, token: String) -> Packet {
    Packet::new(request_id, Headers::new(), login_payload(token))
}

#[test]
fn valid_token_names_its_user() {
    let server = TokenAuthServer::new();
    for id in 1..=3u64 {
        let packet = login(7, encrypt(id));
        assert_eq!(server.auth(&packet), Ok(id));
        assert_eq!(server.try_auth(&packet), Some(Ok(id)));
    }
}

#[test]
fn garbage_token_is_invalid() {
    let server = TokenAuthServer::new();
    let packet = login(9, "not base64!".to_string());
    assert_eq!(server.auth(&packet), Err(AuthError::InvalidToken { request_id: 9 }));
    let packet = login(10, base64::encode([1u8, 2, 3]));
    assert_eq!(server.auth(&packet), Err(AuthError::InvalidToken { request_id: 10 }));
}

#[test]
fn empty_token_is_not_taken_by_auth() {
    let server = TokenAuthServer::new();
    let packet = login(3, String::new());
    assert_eq!(server.try_auth(&packet), None);
    let other = Packet::new(3, Headers::new(), Payload::Logout);
    assert_eq!(server.try_auth(&other), None);
}

#[test]
fn auth_error_answer() {
    let p = AuthError::InvalidToken { request_id: 42 }.into_packet();
    assert_eq!(p.request_id, 42);
    assert_eq!(p.headers.len(), 0);
    match p.payload {
        Payload::Error { code, message } => {
            assert_eq!(code, 32);
            assert_eq!(message, "invalid token");
        }
        _ => panic!("not an error payload"),
    }
}

#[test]
fn padding_is_removed_and_zeroed() {
    let mut block: Vec<u8> = (1..=12).collect();
    block.extend_from_slice(&[4, 4, 4, 4]);
    let mut expected: Vec<u8> = (1..=12).collect();
    expected.extend_from_slice(&[0, 0, 0, 0]);
    assert_eq!(strip_pkcs_padding(block), Some(expected));
    let full = vec![16u8; 16];
    assert_eq!(strip_pkcs_padding(full), Some(vec![0u8; 16]));
    assert_eq!(strip_pkcs_padding(Vec::new()), Some(Vec::new()));
}

#[test]
fn zero_padding_byte_keeps_the_block() {
    let mut block = vec![9u8; 15];
    block.push(0);
    assert_eq!(strip_pkcs_padding(block.clone()), Some(block));
}

#[test]
fn wrong_padding_is_refused() {
    let mut block = vec![7u8; 14];
    block.extend_from_slice(&[3, 2]);
    assert_eq!(strip_pkcs_padding(block), None);
    let mut block = vec![5u8; 15];
    block.push(17);
    assert_eq!(strip_pkcs_padding(block), None);
}

#[test]
fn padding_that_would_panic_is_detected() {
    assert!(padding_panics(&[17u8; 16]));
    assert!(padding_panics(&[200u8; 32]));
    let mut block = vec![17u8; 15];
    block.push(16);
    assert!(!padding_panics(&block));
    assert!(!padding_panics(&[17u8; 15]));
    let mut block = vec![1u8; 16];
    block.push(17);
    assert!(!padding_panics(&block[1..]));
}

#[test]
fn token_with_panicking_padding_is_not_taken() {
    let server = TokenAuthServer::new();
    let packet = login(4, encrypt_blocks(&[17u8; 16]));
    assert_eq!(server.try_auth(&packet), None);
}

#[test]
fn token_with_bad_padding_is_invalid() {
    let server = TokenAuthServer::new();
    let mut block = vec![1u8; 15];
    block.push(5);
    let packet = login(6, encrypt_blocks(&block));
    assert_eq!(server.try_auth(&packet), Some(Err(AuthError::InvalidToken { request_id: 6 })));
    assert_eq!(server.auth(&packet), Err(AuthError::InvalidToken { request_id: 6 }));
}

#[test]
fn token_of_whole_blocks_without_padding_check() {
    let server = TokenAuthServer::new();
    let mut block = vec![0u8; 7];
    block.push(9);
    block.extend_from_slice(&[1u8; 8]);
    let packet = login(8, encrypt_blocks(&block));
    assert_eq!(server.try_auth(&packet), Some(Ok(9)));
}

#[test]
fn strip_undoes_padding() {
    let mut padded = vec![1u8, 2, 3];
    padded.extend_from_slice(&[13u8; 13]);
    let mut expected = vec![1u8, 2, 3];
    expected.extend_from_slice(&[0u8; 13]);
    assert_eq!(strip_pkcs_padding(padded), Some(expected));
    let mut padded = vec![9u8; 16];
    padded.extend_from_slice(&[16u8; 16]);
    let mut expected = vec![9u8; 16];
    expected.extend_from_slice(&[0u8; 16]);
    assert_eq!(strip_pkcs_padding(padded), Some(expected));
}
