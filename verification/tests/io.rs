//! Tests for the byte source, sink and scratch buffer backends.

use serde_brief::buffer::Buffer;
use serde_brief::io::BoundedOutput;
use serde_brief::io::Input;
use serde_brief::io::Output;
use serde_brief::io::SizeLimit;

const PANIC_INPUT_DATA: &[u8] = &[0];

fn input_does_not_panic<'de, I: Input<'de>>(mut input: I) {
    let _ = input.peek_byte();
    let _ = input.read_byte();
    let _ = input.read_fixed(5);
    let _ = input.read_borrowed(10);
    let _ = input.read_fixed(usize::MAX / 2);
    let _ = input.read_fixed(usize::MAX);
    let _ = input.skip_bytes(10);
    let _ = input.skip_bytes(usize::MAX / 2);
    let _ = input.skip_bytes(usize::MAX);
}

const BASIC_INPUT_DATA: &[u8] = &[0, 1, 2, 3, 4, 5, 6, 7, 8, 9];

fn basic_input_works<'de, I: Input<'de>>(mut input: I) {
    let byte = input.peek_byte().unwrap();
    assert_eq!(byte, 0);
    let _byte = input.peek_byte().unwrap();
    let byte = input.peek_byte().unwrap();
    assert_eq!(byte, 0);

    let byte = input.read_byte().unwrap();
    assert_eq!(byte, 0);
    let byte = input.peek_byte().unwrap();
    assert_eq!(byte, 1);
    let _byte = input.read_byte().unwrap();
    let byte = input.read_byte().unwrap();
    assert_eq!(byte, 2);

    let target = input.read_fixed(0).unwrap();
    assert!(target.is_empty());
    let byte = input.peek_byte().unwrap();
    assert_eq!(byte, 3);
    let target = input.read_fixed(2).unwrap();
    assert_eq!(target, vec![3, 4]);
    let byte = input.peek_byte().unwrap();
    assert_eq!(byte, 5);

    input.skip_bytes(0).unwrap();
    let byte = input.peek_byte().unwrap();
    assert_eq!(byte, 5);
    input.skip_bytes(1).unwrap();
    input.skip_bytes(2).unwrap();
    let byte = input.peek_byte().unwrap();
    assert_eq!(byte, 8);

    input.skip_bytes(2).unwrap();
    assert!(input.peek_byte().is_err());
    assert!(input.read_byte().is_err());
    assert!(input.read_fixed(1).is_err());
    assert!(input.skip_bytes(1).is_err());
}

const READ_BYTES_INPUT_DATA: &[u8] = &[5; 20];

#[test]
fn slice_input_behaves() {
    input_does_not_panic(PANIC_INPUT_DATA);
    basic_input_works(BASIC_INPUT_DATA);

    // Read bytes returns borrowed data.
    let mut input = READ_BYTES_INPUT_DATA;
    let borrowed = input.read_borrowed(10).unwrap();
    let slice = borrowed.unwrap();
    assert_eq!(slice.len(), 10);
    assert_eq!(slice, [5; 10].as_slice());
    let borrowed = input.read_borrowed(5).unwrap();
    assert_eq!(borrowed.unwrap(), [5; 5].as_slice());
    assert!(input.read_borrowed(10).is_err());
}

fn output_does_not_panic<O: Output>(mut output: O) {
    let _ = output.write_byte(0);
    let _ = output.write_all(&[]);
    let _ = output.write_all(&[1]);
    let _ = output.write_all(&[1, 2, 3, 4, 5]);
}

const BASIC_OUTPUT_DATA: &[u8] = &[0, 1, 2, 3, 4, 5, 6, 7, 8, 9];

fn basic_output_works<O: Output>(output: &mut O) {
    output.write_byte(0).unwrap();
    output.write_byte(1).unwrap();
    output.write_all(&[]).unwrap();
    output.write_all(&[2, 3, 4, 5]).unwrap();
    output.write_byte(6).unwrap();
    output.write_all(&[7, 8, 9]).unwrap();
}

#[test]
fn slice_output_behaves() {
    output_does_not_panic(BoundedOutput::new(2));
    let mut output = BoundedOutput::new(10);
    basic_output_works(&mut output);
    assert_eq!(output.as_slice(), BASIC_OUTPUT_DATA);
    assert!(output.write_byte(10).is_err());
}

#[test]
fn vec_output_behaves() {
    output_does_not_panic(Vec::new());
    let mut output: Vec<u8> = Vec::new();
    basic_output_works(&mut output);
    assert_eq!(&output, BASIC_OUTPUT_DATA);
}

#[test]
fn size_limit_output_behaves() {
    let mut output: SizeLimit<Vec<u8>> = SizeLimit::new(Vec::new(), 3);
    output.write_byte(1).unwrap();
    output.write_all(&[2, 3]).unwrap();
    let result = output.write_byte(4);
    assert!(result.is_err());
    assert_eq!(output.remaining(), 0);
    assert_eq!(&output.into_inner(), &[1, 2, 3]);
}

fn buffer_does_not_panic<B: Buffer>(mut buffer: B) {
    buffer.clear();
    let _ = buffer.as_slice();
    let _ = buffer.push(0);
    let _ = buffer.extend_from_slice(&[]);
    let _ = buffer.extend_from_slice(&[5]);
    let _ = buffer.extend_from_slice(&[1, 2, 3, 4, 5]);
}

fn buffer_basics_work<B: Buffer>(mut buffer: B) {
    buffer.clear();
    let expected: &[u8] = &[];
    assert_eq!(buffer.as_slice(), expected);
    buffer.push(1).unwrap();
    assert_eq!(buffer.as_slice(), &[1]);
    buffer.push(2).unwrap();
    assert_eq!(buffer.as_slice(), &[1, 2]);
    buffer.extend_from_slice(&[3, 4]).unwrap();
    assert_eq!(buffer.as_slice(), &[1, 2, 3, 4]);
    buffer.push(5).unwrap();
    assert_eq!(buffer.as_slice(), &[1, 2, 3, 4, 5]);
    buffer.clear();
    let expected: &[u8] = &[];
    assert_eq!(buffer.as_slice(), expected);
    buffer.extend_from_slice(&[]).unwrap();
    let expected: &[u8] = &[];
    assert_eq!(buffer.as_slice(), expected);
    buffer.extend_from_slice(&[1]).unwrap();
    assert_eq!(buffer.as_slice(), &[1]);
    buffer.extend_from_slice(&[2, 3, 4, 5]).unwrap();
    assert_eq!(buffer.as_slice(), &[1, 2, 3, 4, 5]);
}

#[test]
fn unit_buffer_behaves() {
    buffer_does_not_panic(());
    let mut buffer = ();
    assert!(Buffer::push(&mut buffer, 1).is_err());
    assert!(buffer.extend_from_slice(&[1]).is_err());
    buffer.extend_from_slice(&[]).unwrap();
    let expected: &[u8] = &[];
    assert_eq!(Buffer::as_slice(&buffer), expected);
}

#[test]
fn vec_buffer_behaves() {
    buffer_does_not_panic(Vec::new());
    buffer_basics_work(Vec::new());
}
