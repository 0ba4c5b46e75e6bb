use vstd::prelude::*;
use crate::error::SgmError;
use crate::text::{
    concat, hex_decode, hex_encode, hex_of, hex_value, is_hex_text, lemma_hex_of_is_hex_text, lemma_trim_hex_text,
    trim_text, trimmed,
};

verus! {

/// A store kept in a directory: one file per key, named after the key, holding
/// the hex form of the value. A file that exists is a key that was written.
#[derive(Debug, Clone)]
pub struct FileAdapter {
    path: String,
}

impl FileAdapter {
    pub closed spec fn dir(&self) -> Seq<char> {
        self.path@
    }

    /// A store kept in the directory `path`.
    pub fn new(path: &str) -> (r: FileAdapter)
        ensures
            r.dir() == path@,
    {
        FileAdapter { path: String::from_str(path) }
    }

    /// The file that holds the value of `key`.
    pub fn key_file(&self, key: &str) -> (r: String)
        ensures
            r@ == self.dir() + seq!['/'] + key@,
    {
        proof {
            reveal_strlit("/");
        }
        let d = concat(self.path.as_str(), "/");
        concat(d.as_str(), key)
    }
}

/// The text a file holds for `value`.
pub fn encode_value(value: &[u8]) -> (r: String)
    ensures
        r@ == hex_of(value@),
{
    hex_encode(value)
}

/// The value held by a file's text, with surrounding whitespace ignored; text
/// that is not hex is a storage failure.
pub fn decode_value(text: &str) -> (r: Result<Vec<u8>, SgmError>)
    ensures
        r is Ok <==> is_hex_text(trimmed(text@)),
        r matches Ok(v) ==> 2 * v@.len() == trimmed(text@).len() && forall|i: int|
            0 <= i < v@.len() ==> #[trigger] v@[i] as int == 16 * hex_value(trimmed(text@)[2 * i]) + hex_value(
                trimmed(text@)[2 * i + 1],
            ),
        (forall|b: Seq<u8>| hex_of(b) == text@ ==> (r matches Ok(v) && v@ == b)),
{
    let t = trim_text(text);
    proof {
        if exists|b: Seq<u8>| hex_of(b) == text@ {
            let b = choose|b: Seq<u8>| hex_of(b) == text@;
            lemma_hex_of_is_hex_text(b);
            lemma_trim_hex_text(text@);
            assert(t@ == text@);
        }
    }
    match hex_decode(t) {
        Some(v) => Ok(v),
        None => Err(SgmError::StoreIo(String::from_str("stored value is not hex"))),
    }
}

} // verus!
