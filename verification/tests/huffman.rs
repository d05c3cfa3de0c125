use uo_login::huffman::compress;
use uo_login::huffman::compressor::buffer::CompressorBuffer;
use uo_login::huffman::compressor::Compressor;
use uo_login::huffman::huffman_table::{
    get_compressed_value, get_compressed_value_bit_count, CODE_BIT_COUNTS, CODE_VALUES,
    TERMINAL_CODE_BIT_COUNT, TERMINAL_CODE_VALUE,
};

fn compressed(input: &[u8]) -> Vec<u8> {
    let mut output = Vec::new();
    compress(input.to_vec(), &mut output);
    output
}

fn bits_of(bytes: &[u8]) -> Vec<bool> {
    let mut bits = Vec::new();
    for byte in bytes {
        for k in (0..8).rev() {
            bits.push((byte >> k) & 1 == 1);
        }
    }
    bits
}

fn code_of(symbol: usize) -> Vec<bool> {
    let (value, count) = if symbol == 256 {
        (TERMINAL_CODE_VALUE, TERMINAL_CODE_BIT_COUNT)
    } else {
        (CODE_VALUES[symbol], CODE_BIT_COUNTS[symbol])
    };
    (0..count).rev().map(|k| (value >> k) & 1 == 1).collect()
}

/// Reads a stream back by trying every code of the table at every position.
fn decoded(stream: &[u8]) -> Option<(Vec<u8>, Vec<bool>)> {
    let bits = bits_of(stream);
    let mut position = 0;
    let mut message = Vec::new();
    loop {
        let matching: Vec<usize> =
            (0..257).filter(|&s| bits[position..].starts_with(&code_of(s))).collect();
        if matching.len() != 1 {
            return None;
        }
        let symbol = matching[0];
        position += code_of(symbol).len();
        if symbol == 256 {
            return Some((message, bits[position..].to_vec()));
        }
        message.push(symbol as u8);
    }
}

#[test]
fn compress_empty_is_the_terminal_code() {
    assert_eq!(compressed(&[]), vec![0xD0]);
}

#[test]
fn compress_single_bytes() {
    assert_eq!(compressed(&[0x00]), vec![0x34]);
    assert_eq!(compressed(&[0x01]), vec![0xFE, 0x80]);
    assert_eq!(compressed(&[0xFF]), vec![0xC5, 0xA0]);
}

#[test]
fn compress_messages() {
    assert_eq!(compressed(b"hello"), vec![0x40, 0xF2, 0xD4, 0xD5, 0xE3, 0x40]);
    assert_eq!(compressed(&[0x41, 0x42, 0x43]), vec![0x96, 0x9C, 0xE1, 0xE8]);
    assert_eq!(
        compressed(&[0xB9, 0x00, 0xFF, 0x92, 0xDB]),
        vec![0xB3, 0x0C, 0x59, 0xE4, 0xCB, 0xA0]
    );
}

#[test]
fn compress_appends_to_the_output() {
    let mut output = vec![0xAA, 0xBB];
    compress(vec![0x00], &mut output);
    assert_eq!(output, vec![0xAA, 0xBB, 0x34]);
    compress(Vec::new(), &mut output);
    assert_eq!(output, vec![0xAA, 0xBB, 0x34, 0xD0]);
}

#[test]
fn compressed_length_is_the_code_widths_rounded_up() {
    let inputs: Vec<Vec<u8>> = vec![
        vec![],
        vec![0x00],
        vec![0x00, 0x00],
        b"hello".to_vec(),
        (0..=255).collect(),
        vec![0xFF; 100],
    ];
    for input in inputs {
        let widths: usize = input.iter().map(|&b| CODE_BIT_COUNTS[b as usize] as usize).sum();
        let code_bits = widths + TERMINAL_CODE_BIT_COUNT as usize;
        let output = compressed(&input);
        assert_eq!(output.len() * 8, (code_bits + 7) / 8 * 8);
        let bits = bits_of(&output);
        assert!(bits[code_bits..].iter().all(|&bit| !bit));
    }
}

#[test]
fn compressed_length_exact_values() {
    assert_eq!(compressed(&[0x00, 0x00]).len(), 1);
    assert_eq!(compressed(&[0x00, 0x00]), vec![0x0D]);
    assert_eq!(compressed(&[0x00, 0x00, 0x00]), vec![0x03, 0x40]);
    assert_eq!(compressed(b"hello").len(), 6);
}

#[test]
fn every_single_byte_decodes_to_itself() {
    for byte in 0..=255u8 {
        let stream = compressed(&[byte]);
        let (message, padding) = decoded(&stream).unwrap();
        assert_eq!(message, vec![byte]);
        assert!(padding.len() < 8);
        assert!(padding.iter().all(|&bit| !bit));
    }
}

#[test]
fn messages_decode_to_themselves() {
    let all: Vec<u8> = (0..=255).collect();
    let inputs: Vec<Vec<u8>> = vec![vec![], b"hello world".to_vec(), all, vec![0x7F; 33]];
    for input in inputs {
        let (message, padding) = decoded(&compressed(&input)).unwrap();
        assert_eq!(message, input);
        assert!(padding.len() < 8);
        assert!(padding.iter().all(|&bit| !bit));
    }
}

#[test]
fn table_lookups() {
    assert_eq!(get_compressed_value(0x00), 0x000);
    assert_eq!(get_compressed_value_bit_count(0x00), 2);
    assert_eq!(get_compressed_value(0x01), 0x01F);
    assert_eq!(get_compressed_value_bit_count(0x01), 5);
    assert_eq!(get_compressed_value(0x92), 0x33C);
    assert_eq!(get_compressed_value_bit_count(0x92), 10);
    assert_eq!(get_compressed_value(0xFF), 0x062);
    assert_eq!(get_compressed_value_bit_count(0xFF), 7);
    assert_eq!(TERMINAL_CODE_VALUE, 0xD);
    assert_eq!(TERMINAL_CODE_BIT_COUNT, 4);
}

#[test]
fn table_widths_are_in_range() {
    for byte in 0..=255u8 {
        let width = get_compressed_value_bit_count(byte);
        assert!((2..=11).contains(&width));
        assert!(get_compressed_value(byte) < (1 << width));
    }
}

#[test]
fn compressor_streams_the_same_bytes() {
    let input = b"streaming and batch agree";
    let mut compressor = Compressor::new();
    let mut streamed = Vec::new();
    for &byte in input.iter() {
        compressor.compress_byte(byte);
        while let Some(out) = compressor.get_compressed_byte() {
            streamed.push(out);
        }
    }
    compressor.append_terminal_code();
    compressor.end();
    while let Some(out) = compressor.get_compressed_byte() {
        streamed.push(out);
    }
    assert_eq!(streamed, compressed(input));

    let mut compressor = Compressor::new();
    for &byte in input.iter() {
        compressor.compress_byte(byte);
    }
    compressor.append_terminal_code();
    compressor.end();
    let mut batch = Vec::new();
    while let Some(out) = compressor.get_compressed_byte() {
        batch.push(out);
    }
    assert_eq!(batch, streamed);
}

#[test]
fn compressor_gives_no_byte_before_eight_bits() {
    let mut compressor = Compressor::new();
    assert_eq!(compressor.get_compressed_byte(), None);
    compressor.compress_byte(0x00);
    assert_eq!(compressor.get_compressed_byte(), None);
    compressor.append_terminal_code();
    assert_eq!(compressor.get_compressed_byte(), None);
    compressor.end();
    assert_eq!(compressor.get_compressed_byte(), Some(0x34));
    assert_eq!(compressor.get_compressed_byte(), None);
}

#[test]
fn compressor_end_on_a_byte_boundary_adds_nothing() {
    let mut compressor = Compressor::new();
    compressor.compress_byte(0x00);
    compressor.compress_byte(0x00);
    compressor.append_terminal_code();
    compressor.end();
    assert_eq!(compressor.get_compressed_byte(), Some(0x0D));
    assert_eq!(compressor.get_compressed_byte(), None);
    compressor.end();
    assert_eq!(compressor.get_compressed_byte(), None);
}

#[test]
fn buffer_packs_bits_most_significant_first() {
    let mut buffer = CompressorBuffer::new();
    buffer.write_bits(0b101, 3);
    assert_eq!(buffer.read_byte(), None);
    buffer.write_bits(0b00110, 5);
    assert_eq!(buffer.read_byte(), Some(0b1010_0110));
    assert_eq!(buffer.read_byte(), None);
}

#[test]
fn buffer_takes_the_low_order_bits_only() {
    let mut buffer = CompressorBuffer::new();
    buffer.write_bits(0xFFFF_FF0F, 8);
    assert_eq!(buffer.read_byte(), Some(0x0F));
    buffer.write_bits(0xFFFF_FFFF, 0);
    assert_eq!(buffer.read_byte(), None);
    assert_eq!(buffer.byte_boundary_offset(), 0);
}

#[test]
fn buffer_takes_codes_of_thirty_two_bits() {
    let mut buffer = CompressorBuffer::new();
    buffer.write_bits(0x1, 1);
    buffer.write_bits(0x8000_0001, 32);
    assert_eq!(buffer.read_byte(), Some(0xC0));
    assert_eq!(buffer.read_byte(), Some(0x00));
    assert_eq!(buffer.read_byte(), Some(0x00));
    assert_eq!(buffer.read_byte(), Some(0x00));
    assert_eq!(buffer.read_byte(), None);
    assert_eq!(buffer.byte_boundary_offset(), 7);
    buffer.write_bits(0, 7);
    assert_eq!(buffer.read_byte(), Some(0x80));
}

#[test]
fn buffer_reports_the_unfilled_bits() {
    let mut buffer = CompressorBuffer::new();
    assert_eq!(buffer.byte_boundary_offset(), 0);
    buffer.write_bits(1, 1);
    assert_eq!(buffer.byte_boundary_offset(), 7);
    buffer.write_bits(0, 2);
    assert_eq!(buffer.byte_boundary_offset(), 5);
    buffer.write_bits(0, 4);
    assert_eq!(buffer.byte_boundary_offset(), 1);
    buffer.write_bits(1, 1);
    assert_eq!(buffer.byte_boundary_offset(), 0);
    buffer.write_bits(0x3FF, 10);
    assert_eq!(buffer.byte_boundary_offset(), 6);
    assert_eq!(buffer.read_byte(), Some(0x81));
    assert_eq!(buffer.byte_boundary_offset(), 6);
    assert_eq!(buffer.read_byte(), Some(0xFF));
    assert_eq!(buffer.read_byte(), None);
}

#[test]
fn buffer_keeps_bytes_in_order() {
    let mut buffer = CompressorBuffer::new();
    buffer.write_bits(0x0102_0304, 32);
    assert_eq!(buffer.read_byte(), Some(0x01));
    buffer.write_bits(0x05, 8);
    assert_eq!(buffer.read_byte(), Some(0x02));
    assert_eq!(buffer.read_byte(), Some(0x03));
    assert_eq!(buffer.read_byte(), Some(0x04));
    assert_eq!(buffer.read_byte(), Some(0x05));
    assert_eq!(buffer.read_byte(), None);
}
