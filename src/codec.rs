//! What the codec process is given: its command-line arguments and the bytes of raw PCM on
//! its standard input. Running the process is left to the caller.
use vstd::prelude::*;
use crate::naming::{decimal, decimal_string, text};
use crate::timeline::{CHANNELS, SAMPLE_RATE};

verus! {

/// The views of a list of strings.
pub open spec fn texts(v: Seq<String>) -> Seq<Seq<char>> {
    v.map_values(|s: String| s@)
}

/// Arguments that make the codec read raw signed 16-bit little-endian PCM at the voice
/// stream's rate and channel count from stdin and write the encoded file `out`.
pub open spec fn encode_args_spec(out: Seq<char>) -> Seq<Seq<char>> {
    seq![
        "-f"@, "s16le"@, "-ar"@, decimal(SAMPLE_RATE as nat), "-ac"@, decimal(CHANNELS as nat),
        "-i"@, "pipe:"@, out,
    ]
}

/// One `-i <path>` pair per input, in order.
pub open spec fn input_args(inputs: Seq<Seq<char>>) -> Seq<Seq<char>>
    decreases inputs.len(),
{
    if inputs.len() == 0 {
        Seq::empty()
    } else {
        input_args(inputs.drop_last()) + seq!["-i"@, inputs.last()]
    }
}

/// Arguments that make the codec mix `inputs` through `filter` into a stereo file `out`.
pub open spec fn mix_args_spec(inputs: Seq<Seq<char>>, filter: Seq<char>, out: Seq<char>) -> Seq<Seq<char>> {
    input_args(inputs) + seq!["-filter_complex"@, filter, "-ac"@, decimal(CHANNELS as nat), out]
}

/// Low byte of a sample in little-endian order.
pub open spec fn low_byte(s: i16) -> u8 {
    ((s as u16) % 256) as u8
}

/// High byte of a sample in little-endian order.
pub open spec fn high_byte(s: i16) -> u8 {
    ((s as u16) / 256) as u8
}

/// Raw little-endian bytes of a run of samples.
pub open spec fn le_bytes(samples: Seq<i16>) -> Seq<u8> {
    Seq::new(2 * samples.len(), |i: int| if i % 2 == 0 { low_byte(samples[i / 2]) } else { high_byte(samples[i / 2]) })
}

/// The arguments to encode raw PCM from stdin into `out_path`.
pub fn encode_args(out_path: &str) -> (r: Vec<String>)
    ensures
        texts(r@) == encode_args_spec(out_path@),
{
    let mut r: Vec<String> = Vec::new();
    r.push(text("-f"));
    r.push(text("s16le"));
    r.push(text("-ar"));
    r.push(decimal_string(SAMPLE_RATE));
    r.push(text("-ac"));
    r.push(decimal_string(CHANNELS));
    r.push(text("-i"));
    r.push(text("pipe:"));
    r.push(text(out_path));
    assert(texts(r@) =~= encode_args_spec(out_path@));
    r
}

/// The arguments to mix `inputs` through `filter` into `out_path`.
pub fn mix_args(inputs: &Vec<String>, filter: &str, out_path: &str) -> (r: Vec<String>)
    ensures
        texts(r@) == mix_args_spec(texts(inputs@), filter@, out_path@),
{
    let ghost ins = texts(inputs@);
    let mut r: Vec<String> = Vec::new();
    let mut i: usize = 0;
    assert(ins.take(0) =~= Seq::<Seq<char>>::empty());
    while i < inputs.len()
        invariant
            0 <= i <= inputs.len(),
            ins == texts(inputs@),
            texts(r@) == input_args(ins.take(i as int)),
        decreases inputs.len() - i,
    {
        assert(ins.take(i + 1).drop_last() =~= ins.take(i as int));
        assert(ins.take(i + 1).last() == inputs@[i as int]@);
        let ghost before = r@;
        r.push(text("-i"));
        r.push(text(inputs[i].as_str()));
        assert(texts(r@) =~= texts(before) + seq!["-i"@, inputs@[i as int]@]);
        i = i + 1;
    }
    assert(ins.take(i as int) =~= ins);
    let ghost before = r@;
    r.push(text("-filter_complex"));
    r.push(text(filter));
    r.push(text("-ac"));
    r.push(decimal_string(CHANNELS));
    r.push(text(out_path));
    assert(texts(r@) =~= texts(before) + seq!["-filter_complex"@, filter@, "-ac"@, decimal(CHANNELS as nat), out_path@]);
    r
}

/// The raw little-endian bytes of `samples`, as the codec reads them from stdin.
pub fn pcm_le_bytes(samples: &Vec<i16>) -> (r: Vec<u8>)
    requires
        samples@.len() * 2 <= usize::MAX,
    ensures
        r@ == le_bytes(samples@),
{
    let mut r: Vec<u8> = Vec::new();
    let mut i: usize = 0;
    while i < samples.len()
        invariant
            0 <= i <= samples.len(),
            samples@.len() * 2 <= usize::MAX,
            r@.len() == 2 * i,
            forall|k: int| 0 <= k < 2 * i ==> #[trigger] r@[k] == le_bytes(samples@)[k],
        decreases samples.len() - i,
    {
        let u = samples[i] as u16;
        let ghost before = r@;
        r.push((u % 256) as u8);
        r.push((u / 256) as u8);
        assert forall|k: int| 0 <= k < 2 * (i + 1) implies #[trigger] r@[k] == le_bytes(samples@)[k] by {
            if k < 2 * i {
                assert(r@[k] == before[k]);
            } else {
                assert(k / 2 == i);
            }
        }
        i = i + 1;
    }
    assert(r@ =~= le_bytes(samples@));
    r
}

} // verus!
