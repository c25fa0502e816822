use ironfoil_core::sphaira::{
    get_send_header, initiate_transfer, next_transfer_step, next_workloop_action,
    read_failure_error, send_chunk, send_file_size, send_result, ReadFailure, SendHeader,
    SendHeaderError, TransferStep, WorkloopAction, WorkloopError, COMMAND_OPEN, COMMAND_QUIT,
    EXPECTED_MAGIC, FLAG_NONE, FLAG_STREAM, PACKET_SIZE, RESULT_ERROR, RESULT_OK,
};

fn words(packet: &[u8]) -> Vec<u32> {
    packet
        .chunks(4)
        .map(|c| u32::from_le_bytes(c.try_into().unwrap()))
        .collect()
}

fn client_packet(arg2: u32, arg3: u32, arg4: u32) -> Vec<u8> {
    let mut p = Vec::new();
    for w in [EXPECTED_MAGIC, arg2, arg3, arg4, 0] {
        p.extend_from_slice(&w.to_le_bytes());
    }
    let crc = crc32c::crc32c(&p);
    p.extend_from_slice(&crc.to_le_bytes());
    p
}

#[test]
fn send_result_good() {
    let cases: [(u32, Option<u32>, Option<u32>); 5] = [
        (RESULT_OK, None, None),
        (RESULT_ERROR, None, None),
        (RESULT_OK, Some(123), None),
        (RESULT_ERROR, None, Some(u32::MAX)),
        (RESULT_OK, Some(u32::MAX), Some(u32::MAX)),
    ];
    for (result, arg3, arg4) in cases {
        let expected_crc32c = crc32c::crc32c(
            &[EXPECTED_MAGIC, result, arg3.unwrap_or(0), arg4.unwrap_or(0), 0]
                .map(u32::to_le_bytes)
                .concat(),
        );
        let mut usb_response = Vec::new();
        send_result(&mut usb_response, result, arg3, arg4);
        assert_eq!(usb_response.len(), PACKET_SIZE);
        let w = words(&usb_response);
        assert_eq!(w[0], EXPECTED_MAGIC);
        assert_eq!(w[1], result);
        assert_eq!(w[2], arg3.unwrap_or(0));
        assert_eq!(w[3], arg4.unwrap_or(0));
        assert_eq!(w[4], 0);
        assert_eq!(w[5], expected_crc32c);
    }
}

#[test]
fn magic_is_sph0() {
    assert_eq!(EXPECTED_MAGIC, u32::from_be_bytes(*b"SPH0"));
}

#[test]
fn send_result_appends_to_what_is_there() {
    let mut out = vec![7u8, 8];
    send_result(&mut out, RESULT_OK, None, None);
    assert_eq!(out.len(), 2 + PACKET_SIZE);
    assert_eq!(&out[..2], &[7, 8]);
}

#[test]
fn result_packet_reads_back_as_header() {
    let mut out = Vec::new();
    send_result(&mut out, 5, Some(6), Some(7));
    assert_eq!(
        get_send_header(&out),
        Ok(SendHeader { arg2: 5, arg3: 6, arg4: 7 })
    );
}

#[test]
fn header_with_bad_magic_is_refused() {
    let mut p = client_packet(1, 2, 3);
    p[0] ^= 0xff;
    assert_eq!(get_send_header(&p), Err(SendHeaderError::InvalidMagic));
}

#[test]
fn header_with_bad_checksum_is_refused() {
    let mut p = client_packet(1, 2, 3);
    p[8] ^= 0x01;
    assert_eq!(get_send_header(&p), Err(SendHeaderError::InvalidCrc32c));
    let mut q = client_packet(1, 2, 3);
    q[20] ^= 0x01;
    assert_eq!(get_send_header(&q), Err(SendHeaderError::InvalidCrc32c));
}

#[test]
fn header_offset_and_size() {
    let h = get_send_header(&client_packet(0x1, 0x2000_0000, 4096)).unwrap();
    assert_eq!(h.get_offset(), 0x1_2000_0000);
    assert_eq!(h.get_size(), 4096);
}

#[test]
fn read_failures() {
    assert_eq!(read_failure_error(ReadFailure::ConnectionAborted), SendHeaderError::Disconnected);
    assert_eq!(read_failure_error(ReadFailure::TimedOut), SendHeaderError::Disconnected);
    assert_eq!(read_failure_error(ReadFailure::Other), SendHeaderError::OtherIo);
}

#[test]
fn workloop_actions() {
    let quit = Ok(SendHeader { arg2: COMMAND_QUIT, arg3: 0, arg4: 0 });
    assert_eq!(next_workloop_action(quit, 2), Ok(WorkloopAction::AcknowledgeQuit));
    let open = Ok(SendHeader { arg2: COMMAND_OPEN, arg3: 1, arg4: 0 });
    assert_eq!(next_workloop_action(open, 2), Ok(WorkloopAction::Open { game_index: 1 }));
    assert_eq!(
        next_workloop_action(open, 1),
        Err(WorkloopError::GameIndexOutOfRange { game_index: 1, game_count: 1 })
    );
    let bad = Ok(SendHeader { arg2: 9, arg3: 0, arg4: 0 });
    assert_eq!(next_workloop_action(bad, 2), Err(WorkloopError::InvalidCommand(9)));
    assert_eq!(
        next_workloop_action(Err(SendHeaderError::Disconnected), 2),
        Ok(WorkloopAction::Stop)
    );
    assert_eq!(
        next_workloop_action(Err(SendHeaderError::InvalidMagic), 2),
        Err(WorkloopError::ReadHeader(SendHeaderError::InvalidMagic))
    );
}

#[test]
fn transfer_steps() {
    assert_eq!(
        next_transfer_step(Ok(SendHeader { arg2: 0, arg3: 0, arg4: 0 })),
        Ok(TransferStep::Complete)
    );
    assert_eq!(
        next_transfer_step(Ok(SendHeader { arg2: 0, arg3: 0, arg4: 10 })),
        Ok(TransferStep::Chunk { offset: 0, size: 10 })
    );
    assert_eq!(
        next_transfer_step(Ok(SendHeader { arg2: 2, arg3: 3, arg4: 0 })),
        Ok(TransferStep::Chunk { offset: 0x2_0000_0003, size: 0 })
    );
    assert_eq!(next_transfer_step(Err(SendHeaderError::Disconnected)), Ok(TransferStep::Retry));
    assert_eq!(
        next_transfer_step(Err(SendHeaderError::InvalidCrc32c)),
        Err(SendHeaderError::InvalidCrc32c)
    );
}

#[test]
fn file_size_announcement() {
    let size: u64 = 0x1234_5678_9abc;
    let mut out = Vec::new();
    send_file_size(&mut out, size, FLAG_NONE);
    let w = words(&out);
    assert_eq!(w[1], RESULT_OK);
    assert_eq!(w[2], 0x1234);
    assert_eq!(w[3], 0x5678_9abc);
    // The client rebuilds the size from the two words.
    assert_eq!(((w[2] & 0xffff) as u64) << 32 | w[3] as u64, size);

    let mut streamed = Vec::new();
    send_file_size(&mut streamed, size, FLAG_STREAM);
    assert_eq!(words(&streamed)[2], 0x1_1234);
}

#[test]
fn chunk_answer() {
    let data = [1u8, 2, 3, 0];
    let mut out = Vec::new();
    send_chunk(&mut out, 3, &data);
    assert_eq!(out.len(), PACKET_SIZE + 4);
    let w = words(&out[..PACKET_SIZE]);
    assert_eq!(w[2], 3);
    assert_eq!(w[3], crc32c::crc32c(&data));
    assert_ne!(w[3], 0);
    assert_eq!(&out[PACKET_SIZE..], &data);
}

#[test]
fn sphaira_handshake() {
    let paths = vec!["a.nsp".to_string(), "dir/b.xci".to_string()];
    let bytes = initiate_transfer(Ok(SendHeader { arg2: 0, arg3: 0, arg4: 0 }), 16, &paths).unwrap();
    let w = words(&bytes[..PACKET_SIZE]);
    assert_eq!(w[1], RESULT_OK);
    assert_eq!(w[2], 16);
    assert_eq!(w[3], 0);
    assert_eq!(&bytes[PACKET_SIZE..], b"a.nsp\ndir/b.xci\n");
    assert_eq!(
        initiate_transfer(Err(SendHeaderError::InvalidMagic), 16, &paths),
        Err(SendHeaderError::InvalidMagic)
    );
}

#[test]
fn chunk_checksum_check_value() {
    let data = b"123456789";
    let mut out = Vec::new();
    send_chunk(&mut out, data.len(), data);
    let w = words(&out[..PACKET_SIZE]);
    assert_eq!(w[2], 9);
    assert_eq!(w[3], 0xE306_9283);
}

/// The bitwise CRC-32C that the library's contracts state, run on plain bytes.
fn bitwise_crc32c(data: &[u8]) -> u32 {
    let mut reg: u32 = 0xFFFF_FFFF;
    for &b in data {
        reg ^= b as u32;
        for _ in 0..8 {
            reg = if reg & 1 == 1 { (reg >> 1) ^ 0x82F6_3B78 } else { reg >> 1 };
        }
    }
    reg ^ 0xFFFF_FFFF
}

#[test]
fn stated_checksum_matches_crate() {
    let inputs: [&[u8]; 5] = [b"", b"a", b"123456789", &[0u8; 32], &[0xffu8; 100]];
    for data in inputs {
        assert_eq!(bitwise_crc32c(data), crc32c::crc32c(data));
        let mut out = Vec::new();
        send_chunk(&mut out, data.len(), data);
        assert_eq!(words(&out[..PACKET_SIZE])[3], bitwise_crc32c(data));
    }
}
