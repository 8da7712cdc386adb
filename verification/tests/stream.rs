//! Tests with a source that cannot borrow: decoded payloads are owned
//! copies, and payload reads need a scratch buffer.

use serde_brief::Deserializer;
use serde_brief::error::Error;
use serde_brief::io::Input;
use serde_brief::value::ByteBuf;
use serde_brief::value::StrBuf;
use serde_brief::value::Value;

/// A byte source that hands out copies only, the way a streaming reader
/// would.
struct StreamInput {
    data: Vec<u8>,
    pos: usize,
}

impl StreamInput {
    fn new(data: &[u8]) -> Self {
        StreamInput { data: data.to_vec(), pos: 0 }
    }
}

impl<'de> Input<'de> for StreamInput {
    fn bytes(&self) -> vstd::seq::Seq<u8> {
        unreachable!()
    }

    fn can_borrow(&self) -> bool {
        unreachable!()
    }

    fn fail_err(&self, _consumed: vstd::prelude::nat, _n: vstd::prelude::nat) -> Error {
        unreachable!()
    }

    fn is_borrowing(&self) -> bool {
        false
    }

    fn peek_byte(&mut self) -> Result<u8, Error> {
        self.data.get(self.pos).copied().ok_or(Error::UnexpectedEnd)
    }

    fn read_byte(&mut self) -> Result<u8, Error> {
        let b = self.peek_byte()?;
        self.pos += 1;
        Ok(b)
    }

    fn read_fixed(&mut self, len: usize) -> Result<Vec<u8>, Error> {
        if self.data.len() - self.pos >= len {
            let out = self.data[self.pos..self.pos + len].to_vec();
            self.pos += len;
            Ok(out)
        } else {
            Err(Error::UnexpectedEnd)
        }
    }

    fn read_borrowed(&mut self, _len: usize) -> Result<Option<&'de [u8]>, Error> {
        Ok(None)
    }

    fn skip_bytes(&mut self, len: usize) -> Result<(), Error> {
        if self.data.len() - self.pos >= len {
            self.pos += len;
            Ok(())
        } else {
            Err(Error::UnexpectedEnd)
        }
    }
}

/// Decoding from a stream-backed source yields owned copies.
#[test]
fn stream_decode_owns_payloads() {
    let data = [11u8, 3, b's', b'h', b'y'];
    let mut de = Deserializer::new(StreamInput::new(&data)).with_buffer(Vec::new());
    let parsed = de.decode_value().unwrap();
    assert_eq!(parsed.as_string(), Some("shy"));
    assert!(matches!(parsed, Value::String(StrBuf::Owned(_))));

    let data = [10u8, 3, 1, 2, 3];
    let mut de = Deserializer::new(StreamInput::new(&data)).with_buffer(Vec::new());
    let parsed = de.decode_value().unwrap();
    assert_eq!(parsed.as_bytes(), Some([1u8, 2, 3].as_slice()));
    assert!(matches!(parsed, Value::Bytes(ByteBuf::Owned(_))));
}

/// Without a scratch buffer, a payload read from a stream-backed source
/// fails cleanly; values that need no buffering still decode.
#[test]
fn stream_decode_needs_buffer() {
    let data = [11u8, 3, b's', b'h', b'y'];
    let mut de: Deserializer<StreamInput, ()> = Deserializer::new(StreamInput::new(&data));
    let result = de.decode_value();
    assert!(matches!(result, Err(Error::BufferTooSmall)));

    let data = [3u8, 21];
    let mut de: Deserializer<StreamInput, ()> = Deserializer::new(StreamInput::new(&data));
    assert!(de.decode_value().is_ok());
}
