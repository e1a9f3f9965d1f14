use vstd::prelude::*;
use crate::text::{append_str, push_char};

verus! {

/// What `Path::join` gives, as text, for a directory and a relative name.
pub uninterp spec fn joined(dir: Seq<char>, name: Seq<char>) -> Seq<char>;

/// Relies on `std::path::Path::join`: the name is appended to the directory
/// with the platform's separator. The result is read back as UTF-8, which
/// loses nothing since both parts are UTF-8 text.
#[verifier::external_body]
fn path_join(dir: &str, name: &str) -> (r: String)
    ensures
        r@ == joined(dir@, name@),
{
    std::path::Path::new(dir).join(name).to_string_lossy().into_owned()
}

/// Name of the application's directory inside the home directory.
pub open spec fn app_dir_name() -> Seq<char> {
    seq!['b', 'l', 'i', 't', 'z', '-', 'a', 'p', 'p']
}

/// The application's directory, for the given home directory.
pub open spec fn app_dir_in(home: Seq<char>) -> Seq<char> {
    joined(home, app_dir_name())
}

/// The path of a file of the application's directory, if the home
/// directory is known.
pub open spec fn app_file(home: Option<String>, name: Seq<char>) -> Option<Seq<char>> {
    match home {
        Some(h) => Some(joined(app_dir_in(h@), name)),
        None => None,
    }
}

/// The view of an optional path.
pub open spec fn opt_view(p: Option<String>) -> Option<Seq<char>> {
    match p {
        Some(s) => Some(s@),
        None => None,
    }
}

/// The application's directory inside `home`, if `home` is known.
pub fn app_dir_path(home: &Option<String>) -> (r: Option<String>)
    ensures
        opt_view(r) == match *home {
            Some(h) => Some(app_dir_in(h@)),
            None => None::<Seq<char>>,
        },
{
    proof {
        reveal_strlit("blitz-app");
    }
    assert("blitz-app"@ == app_dir_name());
    match home {
        Some(h) => Some(path_join(h.as_str(), "blitz-app")),
        None => None,
    }
}

/// The path of `filename` inside the application's directory.
pub fn join_to_app_dir_path(home: &Option<String>, filename: &str) -> (r: Option<String>)
    ensures
        opt_view(r) == app_file(*home, filename@),
{
    match app_dir_path(home) {
        Some(dir) => Some(path_join(dir.as_str(), filename)),
        None => None,
    }
}

/// The marker file written after the first start.
pub fn init_path(home: &Option<String>) -> (r: Option<String>)
    ensures
        opt_view(r) == app_file(*home, "init"@),
{
    join_to_app_dir_path(home, "init")
}

/// The file that lists the known players.
pub fn blacklist_path(home: &Option<String>) -> (r: Option<String>)
    ensures
        opt_view(r) == app_file(*home, "blacklist.json"@),
{
    join_to_app_dir_path(home, "blacklist.json")
}

/// The screenshot of the game's window.
pub fn scrshot_path(home: &Option<String>) -> (r: Option<String>)
    ensures
        opt_view(r) == app_file(*home, "players.png"@),
{
    join_to_app_dir_path(home, "players.png")
}

/// The text detection model.
pub fn detection_model_path(home: &Option<String>) -> (r: Option<String>)
    ensures
        opt_view(r) == app_file(*home, "text-detection.rten"@),
{
    join_to_app_dir_path(home, "text-detection.rten")
}

/// The text recognition model.
pub fn recognition_model_path(home: &Option<String>) -> (r: Option<String>)
    ensures
        opt_view(r) == app_file(*home, "text-recognition.rten"@),
{
    join_to_app_dir_path(home, "text-recognition.rten")
}

/// The banner image.
pub fn banner_path(home: &Option<String>) -> (r: Option<String>)
    ensures
        opt_view(r) == app_file(*home, "banner.png"@),
{
    join_to_app_dir_path(home, "banner.png")
}

/// Decimal digits of a natural number, most significant first.
pub open spec fn digits(n: nat) -> Seq<char>
    decreases n,
{
    if n < 10 {
        seq![digit_char(n)]
    } else {
        digits(n / 10).push(digit_char(n % 10))
    }
}

/// The digit character of a value below ten.
pub open spec fn digit_char(d: nat) -> char {
    ((d + 48) as u8) as char
}

/// Decimal text of an integer, with a leading `-` when it is negative.
pub open spec fn decimal(n: int) -> Seq<char> {
    if n < 0 {
        seq!['-'] + digits((-n) as nat)
    } else {
        digits(n as nat)
    }
}

/// Appends the decimal digits of `m` to `s`.
fn push_digits(s: &mut String, m: u32)
    ensures
        final(s)@ == old(s)@ + digits(m as nat),
    decreases m,
{
    if m >= 10 {
        push_digits(s, m / 10);
    }
    let d: u8 = (m % 10) as u8;
    push_char(s, (d + 48) as char);
    proof {
        if m >= 10 {
            assert(digits(m as nat) == digits((m / 10) as nat).push(digit_char((m % 10) as nat)));
        }
    }
}

/// The decimal text of `n`.
fn decimal_text(n: i32) -> (r: String)
    ensures
        r@ == decimal(n as int),
{
    let mut s = String::new();
    if n < 0 {
        push_char(&mut s, '-');
        push_digits(&mut s, (-(n as i64)) as u32);
    } else {
        push_digits(&mut s, n as u32);
    }
    s
}

/// The crop of player card `n`.
pub fn player_scrshot_path(home: &Option<String>, n: i32) -> (r: Option<String>)
    ensures
        opt_view(r) == app_file(*home, "player-crop-"@ + decimal(n as int) + ".png"@),
{
    let mut name = String::new();
    append_str(&mut name, "player-crop-");
    let number = decimal_text(n);
    append_str(&mut name, number.as_str());
    append_str(&mut name, ".png");
    join_to_app_dir_path(home, name.as_str())
}

} // verus!
