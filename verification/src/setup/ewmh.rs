//! Values published on the root window at start-up.
use vstd::prelude::*;
use vstd::string::*;

verus! {

/// The UTF-8 bytes of a character sequence.
pub open spec fn utf8_of(s: Seq<char>) -> Seq<u8> {
    vstd::utf8::encode_utf8(s)
}

/// The workspace names as the desktop-names property wants them: the UTF-8
/// bytes of each, each followed by a zero byte.
pub open spec fn names_bytes(names: Seq<String>) -> Seq<u8>
    decreases names.len(),
{
    if names.len() == 0 {
        Seq::empty()
    } else {
        names_bytes(names.drop_last()) + utf8_of(names.last()@) + seq![0u8]
    }
}

/// The bytes of the desktop-names property for the workspace names.
pub fn desktop_names(names: &Vec<String>) -> (res: Vec<u8>)
    ensures
        res@ == names_bytes(names@),
{
    let mut out: Vec<u8> = Vec::new();
    let mut i: usize = 0;
    while i < names.len()
        invariant
            i <= names@.len(),
            out@ == names_bytes(names@.subrange(0, i as int)),
        decreases names@.len() - i,
    {
        let bytes = names[i].as_str().as_bytes();
        let ghost before = out@;
        let mut j: usize = 0;
        while j < bytes.len()
            invariant
                j <= bytes@.len(),
                out@ == before + bytes@.subrange(0, j as int),
            decreases bytes@.len() - j,
        {
            out.push(bytes[j]);
            j += 1;
            assert(out@ =~= before + bytes@.subrange(0, j as int));
        }
        out.push(0u8);
        proof {
            assert(bytes@.subrange(0, j as int) =~= bytes@);
            assert(names@.subrange(0, i + 1).drop_last() =~= names@.subrange(0, i as int));
            assert(out@ =~= names_bytes(names@.subrange(0, i + 1)));
        }
        i += 1;
    }
    assert(names@.subrange(0, i as int) =~= names@);
    out
}

} // verus!
