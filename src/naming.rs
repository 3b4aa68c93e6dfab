//! Names on disk: decimal numbers, sanitized file names and the folder layout.
use vstd::prelude::*;
use vstd::string::StringExecFns;

verus! {

/// The ASCII digit for `d` (below ten).
pub open spec fn digit(d: int) -> char {
    (48 + d) as char
}

/// The decimal representation of `n`, without leading zeros.
pub open spec fn decimal(n: nat) -> Seq<char>
    decreases n,
{
    if n < 10 {
        seq![digit(n as int)]
    } else {
        decimal(n / 10).push(digit((n % 10) as int))
    }
}

/// A character that a sanitized file name never holds: a path separator, one of
/// `? < > : * | "`, or a control character.
pub open spec fn forbidden(c: char) -> bool {
    c == '/' || c == '\\' || c == '?' || c == '<' || c == '>' || c == ':' || c == '*' || c == '|'
        || c == '"' || (c as u32) <= 0x1f || (0x80 <= (c as u32) && (c as u32) <= 0x9f)
}

/// What `sanitize_filename` makes of a name.
pub uninterp spec fn sanitized(s: Seq<char>) -> Seq<char>;

/// Relies on `sanitize_filename::sanitize_with_options` (Windows rules off, truncation to 255
/// bytes on, empty replacement): it removes path separators, the characters `? < > : * | "`
/// and control characters, turns a name made only of dots into the empty name and keeps a
/// prefix; so no character is added and none of the removed kind is left.
#[verifier::external_body]
pub(crate) fn sanitize(name: &str) -> (r: String)
    ensures
        r@ == sanitized(name@),
        r@.len() <= name@.len(),
        forall|i: int| 0 <= i < r@.len() ==> !forbidden(#[trigger] r@[i]),
{
    sanitize_filename::sanitize_with_options(
        name,
        sanitize_filename::Options { windows: false, truncate: true, replacement: "" },
    )
}

/// Relies on `String::push`: appends `c`.
#[verifier::external_body]
fn push_char(s: &mut String, c: char)
    ensures
        final(s)@ == old(s)@.push(c),
{
    s.push(c)
}

/// Appends `t` to `s`.
pub fn append_text(s: &mut String, t: &str)
    ensures
        final(s)@ == old(s)@ + t@,
{
    s.append(t)
}

/// A new string holding `t`.
pub fn text(t: &str) -> (r: String)
    ensures
        r@ == t@,
{
    t.to_owned()
}

/// Appends the decimal representation of `n` to `s`.
pub fn append_decimal(s: &mut String, n: u64)
    ensures
        final(s)@ == old(s)@ + decimal(n as nat),
    decreases n,
{
    let ghost start = s@;
    if n >= 10 {
        append_decimal(s, n / 10);
    }
    let d = (n % 10) as u8;
    let c = (48u8 + d) as char;
    push_char(s, c);
    assert(c == digit((n % 10) as int));
    assert(s@ =~= start + decimal(n as nat));
}

/// The decimal representation of `n`.
pub fn decimal_string(n: u64) -> (r: String)
    ensures
        r@ == decimal(n as nat),
{
    let mut s = String::new();
    append_decimal(&mut s, n);
    assert(s@ =~= decimal(n as nat));
    s
}

/// Every character of `decimal(n)` is a digit.
pub proof fn lemma_decimal_digits(n: nat)
    ensures
        decimal(n).len() > 0,
        forall|i: int| 0 <= i < decimal(n).len() ==> '0' <= #[trigger] decimal(n)[i] <= '9',
    decreases n,
{
    if n >= 10 {
        lemma_decimal_digits(n / 10);
    }
}

/// Whether `s` is a usable file name: not empty, and not made only of dots.
pub open spec fn usable_name(s: Seq<char>) -> bool {
    s.len() > 0 && exists|i: int| 0 <= i < s.len() && s[i] != '.'
}

/// Whether `s` is a usable file name.
pub fn is_usable_name(s: &str) -> (r: bool)
    ensures
        r == usable_name(s@),
{
    let n = s.unicode_len();
    let mut i: usize = 0;
    while i < n
        invariant
            0 <= i <= n,
            n == s@.len(),
            forall|k: int| 0 <= k < i ==> s@[k] == '.',
        decreases n - i,
    {
        if s.get_char(i) != '.' {
            return true;
        }
        i = i + 1;
    }
    false
}


/// The extension of encoded audio files.
pub open spec fn audio_ext() -> Seq<char> {
    seq!['.', 'm', 'p', '3']
}

/// Appends the extension of encoded audio files.
fn append_ext(s: &mut String)
    ensures
        final(s)@ == old(s)@ + audio_ext(),
{
    append_text(s, ".mp3");
    proof { reveal_strlit(".mp3"); }
    assert(".mp3"@ =~= audio_ext());
}

/// The folder of a snapshot taken at `unix_secs`: `data/recorder/<guild>/<unix_secs>`.
pub open spec fn snapshot_dir(guild_id: u64, unix_secs: u64) -> Seq<char> {
    "data/recorder/"@ + decimal(guild_id as nat) + seq!['/'] + decimal(unix_secs as nat)
}

/// The folder of a snapshot of `guild_id` taken at `unix_secs`.
pub fn snapshot_folder(guild_id: u64, unix_secs: u64) -> (r: String)
    ensures
        r@ == snapshot_dir(guild_id, unix_secs),
{
    let mut s = text("data/recorder/");
    append_decimal(&mut s, guild_id);
    push_char(&mut s, '/');
    append_decimal(&mut s, unix_secs);
    s
}

/// The file name of a speaker's track: the sanitized display name (or the decimal user id
/// when the name could not be resolved) followed by the audio extension; the decimal user id
/// when sanitizing leaves no usable name.
pub open spec fn track_file(display_name: Option<Seq<char>>, user_id: u64) -> Seq<char> {
    let base = match display_name {
        Some(d) => d,
        None => decimal(user_id as nat),
    };
    let stem = sanitized(base);
    if usable_name(stem) {
        stem + audio_ext()
    } else {
        decimal(user_id as nat) + audio_ext()
    }
}

/// The file name of the track of `user_id`, whose display name is `display_name` when it
/// could be resolved. The name is usable, holds no path separator and ends in the audio
/// extension.
pub fn track_file_name(display_name: Option<&str>, user_id: u64) -> (r: String)
    ensures
        r@ == track_file(
            match display_name {
                Some(d) => Some(d@),
                None => None,
            },
            user_id,
        ),
        usable_name(r@),
        r@.len() >= audio_ext().len(),
        r@.subrange(r@.len() - audio_ext().len(), r@.len() as int) == audio_ext(),
        forall|i: int| 0 <= i < r@.len() ==> !forbidden(#[trigger] r@[i]),
{
    let base = match display_name {
        Some(d) => text(d),
        None => decimal_string(user_id),
    };
    let sanitized_stem = sanitize(base.as_str());
    let usable = is_usable_name(sanitized_stem.as_str());
    let mut s = if usable {
        sanitized_stem
    } else {
        proof { lemma_decimal_digits(user_id as nat); }
        decimal_string(user_id)
    };
    let ghost stem = s@;
    proof {
        if !usable {
            assert(stem[0] != '.');
        }
    }
    append_ext(&mut s);
    proof {
        let e = audio_ext();
        assert(s@[0] == stem[0]);
        assert(s@.subrange(s@.len() - e.len(), s@.len() as int) =~= e);
        assert forall|i: int| 0 <= i < s@.len() implies !forbidden(#[trigger] s@[i]) by {
            if i < stem.len() {
                assert(s@[i] == stem[i]);
            } else {
                assert(s@[i] == e[i - stem.len()]);
            }
        }
        let k = choose|k: int| 0 <= k < stem.len() && stem[k] != '.';
        assert(s@[k] == stem[k]);
    }
    s
}

/// Where a sound file lives: `data/sounds/<filename>`; an absolute path stands for itself.
pub open spec fn sound_path(filename: Seq<char>) -> Seq<char> {
    if filename.len() > 0 && filename[0] == '/' {
        filename
    } else {
        "data/sounds/"@ + filename
    }
}

/// The path of the sound file `filename` inside the sounds folder.
pub fn get_full_sound_path(filename: &str) -> (r: String)
    ensures
        r@ == sound_path(filename@),
{
    if filename.unicode_len() > 0 && filename.get_char(0) == '/' {
        text(filename)
    } else {
        let mut s = text("data/sounds/");
        append_text(&mut s, filename);
        s
    }
}


/// Where a file of a snapshot is served from: the snapshot folder and the sanitized name.
pub open spec fn recording_file(guild_id: u64, timestamp: u64, filename: Seq<char>) -> Seq<char> {
    snapshot_dir(guild_id, timestamp) + seq!['/'] + sanitized(filename)
}

/// The path of the file `filename` of the snapshot of `guild_id` taken at `timestamp`.
pub fn recording_file_path(guild_id: u64, timestamp: u64, filename: &str) -> (r: String)
    ensures
        r@ == recording_file(guild_id, timestamp, filename@),
{
    let mut s = snapshot_folder(guild_id, timestamp);
    push_char(&mut s, '/');
    let name = sanitize(filename);
    append_text(&mut s, name.as_str());
    s
}

/// Where a mix is served from: the guild's mix folder and the sanitized name.
pub open spec fn mix_file(guild_id: u64, filename: Seq<char>) -> Seq<char> {
    "data/mixes/"@ + decimal(guild_id as nat) + seq!['/'] + sanitized(filename)
}

/// The path of the mix `filename` of `guild_id`.
pub fn mix_file_path(guild_id: u64, filename: &str) -> (r: String)
    ensures
        r@ == mix_file(guild_id, filename@),
{
    let mut s = text("data/mixes/");
    append_decimal(&mut s, guild_id);
    push_char(&mut s, '/');
    let name = sanitize(filename);
    append_text(&mut s, name.as_str());
    s
}

/// The value of a run of decimal digits.
pub open spec fn digits_value(s: Seq<char>) -> nat
    decreases s.len(),
{
    if s.len() == 0 {
        0
    } else {
        10 * digits_value(s.drop_last()) + (s.last() as nat - 48) as nat
    }
}

/// Whether every character is an ASCII digit.
pub open spec fn all_digits(s: Seq<char>) -> bool {
    forall|i: int| 0 <= i < s.len() ==> '0' <= #[trigger] s[i] <= '9'
}

/// The number a snapshot folder is named by: an optional `+` and then at least one decimal
/// digit, with a value that fits in 64 bits.
pub open spec fn timestamp_of(s: Seq<char>) -> Option<u64> {
    let digits = if s.len() > 0 && s[0] == '+' { s.drop_first() } else { s };
    if digits.len() > 0 && all_digits(digits) && digits_value(digits) <= u64::MAX {
        Some(digits_value(digits) as u64)
    } else {
        None
    }
}

/// The timestamp that names a snapshot folder, or `None` when the name is not a number.
pub fn parse_timestamp(name: &str) -> (r: Option<u64>)
    ensures
        r == timestamp_of(name@),
{
    let n = name.unicode_len();
    let mut i: usize = 0;
    if n > 0 && name.get_char(0) == '+' {
        i = 1;
    }
    let ghost digits = if name@.len() > 0 && name@[0] == '+' { name@.drop_first() } else { name@ };
    let first = i;
    assert(digits.len() == n - first);
    if first == n {
        return None;
    }
    let mut value: u64 = 0;
    while i < n
        invariant
            first <= i <= n,
            n == name@.len(),
            digits == (if name@.len() > 0 && name@[0] == '+' { name@.drop_first() } else { name@ }),
            first == name@.len() - digits.len(),
            digits == name@.subrange(first as int, n as int),
            all_digits(digits.take(i - first)),
            value == digits_value(digits.take(i - first)),
        decreases n - i,
    {
        let c = name.get_char(i);
        let ghost pre = digits.take(i - first);
        assert(digits.take(i + 1 - first).drop_last() =~= pre);
        assert(digits[i - first] == c);
        if c < '0' || c > '9' {
            assert(!all_digits(digits));
            return None;
        }
        let d = (c as u32 - 48) as u64;
        let ghost k = (i + 1 - first) as int;
        assert(digits.take(k).last() == c);
        assert(digits_value(digits.take(k)) == 10 * value + d);
        if value > (u64::MAX - d) / 10 {
            proof {
                assert(10 * value + d > u64::MAX) by (nonlinear_arith)
                    requires
                        value > (u64::MAX - d) / 10,
                        d <= 9,
                ;
                if all_digits(digits) {
                    lemma_digits_value_grows(digits, k);
                }
            }
            return None;
        }
        value = value * 10 + d;
        i = i + 1;
    }
    assert(digits.take(n - first) =~= digits);
    Some(value)
}

/// A number's digits are worth at least as much as any prefix of them.
proof fn lemma_digits_value_grows(s: Seq<char>, k: int)
    requires
        0 <= k <= s.len(),
        all_digits(s),
    ensures
        digits_value(s.take(k)) <= digits_value(s),
    decreases s.len() - k,
{
    if k < s.len() {
        lemma_digits_value_grows(s, k + 1);
        assert(s.take(k + 1).drop_last() =~= s.take(k));
    } else if k == s.len() {
        assert(s.take(k) =~= s);
    }
}

} // verus!
