//! Mixer: checks a mix request and works out the inputs, the filter, the output and the
//! codec arguments of the mix. Running the codec and deleting the mix later is left to the
//! caller.
use vstd::prelude::*;
use crate::codec::{mix_args, mix_args_spec, texts};
use crate::naming::{
    append_decimal, append_text, audio_ext, decimal, digit, sanitized, snapshot_dir,
    snapshot_folder, text,
};

verus! {

/// Why a mix request was refused.
#[derive(Debug, Clone, Copy, PartialEq, Eq)]
pub enum MixRejection {
    /// No user was selected.
    NoUsers,
    /// The window does not end after it starts.
    EmptyWindow,
}

/// Why a mix failed.
#[derive(Debug)]
pub enum MixError {
    /// The request does not meet the preconditions.
    BadRequest(MixRejection),
    /// There is no snapshot at that timestamp.
    NotFound,
    /// Reading or writing files, or talking to the codec process, failed.
    IoError(std::io::Error),
    /// The codec process failed; the end of what it wrote to stderr.
    Codec(String),
}

/// A request to mix some users' tracks of one snapshot over a window, given in milliseconds
/// from the start of the snapshot.
#[derive(Debug)]
pub struct MixRequest {
    pub guild_id: u64,
    pub timestamp: u64,
    /// File names of the selected tracks, without extension.
    pub users: Vec<String>,
    pub start_ms: u64,
    pub end_ms: u64,
}

/// Everything needed to run a mix.
#[derive(Debug)]
pub struct MixPlan {
    /// The track files to mix, in request order.
    pub inputs: Vec<String>,
    /// The codec filter that mixes and trims them.
    pub filter: String,
    /// Where the mix is written.
    pub output_path: String,
    /// The name under which the mix is served.
    pub artifact: String,
    /// The codec's arguments.
    pub args: Vec<String>,
}

/// A count of milliseconds as seconds in decimal, without trailing zeros in the fraction.
pub open spec fn seconds_text(ms: nat) -> Seq<char> {
    let r = (ms % 1000) as int;
    decimal(ms / 1000) + if r == 0 {
        Seq::empty()
    } else if r % 100 == 0 {
        seq!['.', digit(r / 100)]
    } else if r % 10 == 0 {
        seq!['.', digit(r / 100), digit((r / 10) % 10)]
    } else {
        seq!['.', digit(r / 100), digit((r / 10) % 10), digit(r % 10)]
    }
}

/// The filter that mixes `n` inputs to the longest and keeps the window `[start_ms, end_ms)`.
pub open spec fn filter_text(n: nat, start_ms: nat, end_ms: nat) -> Seq<char> {
    "amix=inputs="@ + decimal(n) + ":duration=longest, atrim="@ + seconds_text(start_ms) + seq![':']
        + seconds_text(end_ms)
}

/// The track file of `user` in a snapshot folder.
pub open spec fn input_path(folder: Seq<char>, user: Seq<char>) -> Seq<char> {
    folder + seq!['/'] + sanitized(user) + audio_ext()
}

/// The name under which a mix is served.
pub open spec fn artifact_name(mix_id: u32) -> Seq<char> {
    decimal(mix_id as nat) + audio_ext()
}

/// Where a mix of `guild_id` is written: `data/mixes/<guild>/<id>.mp3`.
pub open spec fn mix_path(guild_id: u64, mix_id: u32) -> Seq<char> {
    "data/mixes/"@ + decimal(guild_id as nat) + seq!['/'] + artifact_name(mix_id)
}

/// The outcome of a mix request: refused when no user is selected or the window is empty;
/// not found when the snapshot folder does not exist; otherwise the plan.
pub open spec fn mix_outcome_ok(req: MixRequest, folder_exists: bool) -> bool {
    req.users@.len() > 0 && req.start_ms < req.end_ms && folder_exists
}

/// The plan holds what `req` asks for, with `mix_id` naming the output.
pub open spec fn plan_matches(p: MixPlan, req: MixRequest, mix_id: u32) -> bool {
    let folder = snapshot_dir(req.guild_id, req.timestamp);
    let ins = Seq::new(req.users@.len(), |i: int| input_path(folder, req.users@[i]@));
    &&& texts(p.inputs@) == ins
    &&& p.filter@ == filter_text(req.users@.len(), req.start_ms as nat, req.end_ms as nat)
    &&& p.output_path@ == mix_path(req.guild_id, mix_id)
    &&& p.artifact@ == artifact_name(mix_id)
    &&& texts(p.args@) == mix_args_spec(ins, p.filter@, p.output_path@)
}

/// Relies on `rand::random::<u32>`: any value may come back.
#[verifier::external_body]
fn random_mix_id() -> (r: u32) {
    rand::random::<u32>()
}

/// Appends `ms` milliseconds as seconds in decimal.
fn append_seconds(s: &mut String, ms: u64)
    ensures
        final(s)@ == old(s)@ + seconds_text(ms as nat),
{
    let ghost start = s@;
    append_decimal(s, ms / 1000);
    let r = ms % 1000;
    if r != 0 {
        append_text(s, ".");
        proof { reveal_strlit("."); }
        assert("."@ =~= seq!['.']);
        let d1 = (r / 100) as u8;
        let d2 = ((r / 10) % 10) as u8;
        let d3 = (r % 10) as u8;
        push_digit(s, d1);
        if r % 100 != 0 {
            push_digit(s, d2);
            if r % 10 != 0 {
                push_digit(s, d3);
            }
        }
    }
    assert(s@ =~= start + seconds_text(ms as nat));
}

/// Appends the digit `d`.
fn push_digit(s: &mut String, d: u8)
    requires
        d < 10,
    ensures
        final(s)@ == old(s)@.push(digit(d as int)),
{
    append_decimal(s, d as u64);
    assert(decimal(d as nat) =~= seq![digit(d as int)]);
}

/// The folder of the snapshot a mix request draws on; the caller checks that it exists.
pub fn source_folder(req: &MixRequest) -> (r: String)
    ensures
        r@ == snapshot_dir(req.guild_id, req.timestamp),
{
    snapshot_folder(req.guild_id, req.timestamp)
}

/// Checks `req` and works out its mix, named by `mix_id`. `folder_exists` says whether the
/// snapshot folder exists. Refuses a request without users or with an empty window; reports
/// a missing snapshot as not found.
pub fn plan_mix(req: &MixRequest, folder_exists: bool, mix_id: u32) -> (r: Result<MixPlan, MixError>)
    ensures
        r is Ok <==> mix_outcome_ok(*req, folder_exists),
        req.users@.len() == 0 ==> r == Err::<MixPlan, MixError>(MixError::BadRequest(MixRejection::NoUsers)),
        req.users@.len() > 0 && req.start_ms >= req.end_ms ==> r == Err::<MixPlan, MixError>(
            MixError::BadRequest(MixRejection::EmptyWindow),
        ),
        req.users@.len() > 0 && req.start_ms < req.end_ms && !folder_exists ==> r is Err && r->Err_0 is NotFound,
        r is Ok ==> plan_matches(r->Ok_0, *req, mix_id),
{
    if req.users.len() == 0 {
        return Err(MixError::BadRequest(MixRejection::NoUsers));
    }
    if req.start_ms >= req.end_ms {
        return Err(MixError::BadRequest(MixRejection::EmptyWindow));
    }
    if !folder_exists {
        return Err(MixError::NotFound);
    }
    let folder = source_folder(req);
    let ghost ins = Seq::new(req.users@.len(), |i: int| input_path(folder@, req.users@[i]@));
    let mut inputs: Vec<String> = Vec::new();
    let mut i: usize = 0;
    while i < req.users.len()
        invariant
            0 <= i <= req.users.len(),
            folder@ == snapshot_dir(req.guild_id, req.timestamp),
            ins == Seq::new(req.users@.len(), |i: int| input_path(folder@, req.users@[i]@)),
            texts(inputs@) == ins.take(i as int),
        decreases req.users.len() - i,
    {
        let mut p = text(folder.as_str());
        append_text(&mut p, "/");
        let name = crate::naming::sanitize(req.users[i].as_str());
        append_text(&mut p, name.as_str());
        append_text(&mut p, ".mp3");
        proof {
            reveal_strlit("/");
            reveal_strlit(".mp3");
        }
        assert(".mp3"@ =~= audio_ext());
        assert("/"@ =~= seq!['/']);
        assert(p@ =~= input_path(folder@, req.users@[i as int]@));
        let ghost before = inputs@;
        inputs.push(p);
        assert(texts(inputs@) =~= texts(before).push(ins[i as int]));
        assert(ins.take(i + 1) =~= ins.take(i as int).push(ins[i as int]));
        i = i + 1;
    }
    assert(ins.take(i as int) =~= ins);
    let mut filter = text("amix=inputs=");
    append_decimal(&mut filter, req.users.len() as u64);
    append_text(&mut filter, ":duration=longest, atrim=");
    append_seconds(&mut filter, req.start_ms);
    append_text(&mut filter, ":");
    append_seconds(&mut filter, req.end_ms);
    proof { reveal_strlit(":"); }
    assert(":"@ =~= seq![':']);
    assert(filter@ =~= filter_text(req.users@.len(), req.start_ms as nat, req.end_ms as nat));
    let mut artifact = String::new();
    append_decimal(&mut artifact, mix_id as u64);
    append_text(&mut artifact, ".mp3");
    proof { reveal_strlit(".mp3"); }
    assert(".mp3"@ =~= audio_ext());
    assert(artifact@ =~= artifact_name(mix_id));
    let mut output_path = text("data/mixes/");
    append_decimal(&mut output_path, req.guild_id);
    append_text(&mut output_path, "/");
    append_text(&mut output_path, artifact.as_str());
    proof { reveal_strlit("/"); }
    assert("/"@ =~= seq!['/']);
    assert(output_path@ =~= mix_path(req.guild_id, mix_id));
    let args = mix_args(&inputs, filter.as_str(), output_path.as_str());
    Ok(MixPlan { inputs, filter, output_path, artifact, args })
}

/// Checks `req` and works out its mix under a randomly drawn name; the result is that of
/// `plan_mix` for some name.
pub fn prepare_mix(req: &MixRequest, folder_exists: bool) -> (r: Result<MixPlan, MixError>)
    ensures
        r is Ok <==> mix_outcome_ok(*req, folder_exists),
        req.users@.len() == 0 ==> r == Err::<MixPlan, MixError>(MixError::BadRequest(MixRejection::NoUsers)),
        req.users@.len() > 0 && req.start_ms >= req.end_ms ==> r == Err::<MixPlan, MixError>(
            MixError::BadRequest(MixRejection::EmptyWindow),
        ),
        req.users@.len() > 0 && req.start_ms < req.end_ms && !folder_exists ==> r is Err && r->Err_0 is NotFound,
        r is Ok ==> exists|id: u32| plan_matches(r->Ok_0, *req, id),
{
    let id = random_mix_id();
    plan_mix(req, folder_exists, id)
}

} // verus!
