//! The image lists of the observation service and the choice of what to fetch.
use crate::finder::CondKeys;
use crate::lower::{first_index, get, has_key};
use crate::value::{entries_model, entry_model, JVal, Value};
use vstd::prelude::*;

verus! {

broadcast use vstd::std_specs::vec::group_vec_axioms;

pub const OBSERVE_SAT_LIST: &'static str = "/Data/js/obs_img/Observe_sat.js";

pub const OBSERVE_SAT_DIR: &'static str = "/Data/satellite/";

pub const OBSERVE_RADAR_LIST: &'static str = "/Data/js/obs_img/Observe_radar.js";

pub const OBSERVE_RADAR_DIR: &'static str = "/Data/radar/";

pub const OBSERVE_RADAR_RAIN_LIST: &'static str = "/Data/js/obs_img/Observe_radar_rain.js";

pub const OBSERVE_RADAR_RAIN_DIR: &'static str = "/Data/radar_rain/";

/// The value under `k`, if it is a string.
pub open spec fn get_str(m: Seq<(Seq<char>, JVal)>, k: Seq<char>) -> Option<Seq<char>> {
    match get(m, k) {
        Some(JVal::Str(s)) => Some(s),
        _ => None,
    }
}

/// Looks up a string under `k` in an object's entries.
pub fn lookup_str(m: &Vec<(String, Value)>, k: &str) -> (r: Option<String>)
    ensures
        match r {
            Some(s) => get_str(entries_model(*m), k@) == Some(s@),
            None => get_str(entries_model(*m), k@) is None,
        },
{
    let ghost mm = entries_model(*m);
    let key = k.to_owned();
    let mut i: usize = 0;
    while i < m.len()
        invariant
            i <= m.len(),
            mm == entries_model(*m),
            key@ == k@,
            forall|j: int| 0 <= j < i ==> mm[j].0 != k@,
        decreases m.len() - i,
    {
        assert(mm[i as int] == entry_model(m@[i as int]));
        if m[i].0 == key {
            proof {
                assert(first_index(mm, k@, i as int));
                assert(has_key(mm, k@));
                let c = choose|c: int| first_index(mm, k@, c);
                assert(c == i);
            }
            return match &m[i].1 {
                Value::Str(s) => Some(s.clone()),
                _ => None,
            };
        }
        i += 1;
    }
    None
}

/// An image of a list: its path and its caption.
#[derive(Debug)]
pub struct Img {
    pub img: String,
    pub text: String,
}

/// The image an object value describes, if both fields are strings.
pub open spec fn img_fields(v: JVal) -> Option<(Seq<char>, Seq<char>)> {
    match v {
        JVal::Obj(m) => match (get_str(m, "img"@), get_str(m, "text"@)) {
            (Some(i), Some(t)) => Some((i, t)),
            _ => None,
        },
        _ => None,
    }
}

impl CondKeys for Img {
    open spec fn required_keys() -> Seq<Seq<char>> {
        seq!["img"@, "text"@]
    }

    open spec fn decodable(v: JVal) -> bool {
        img_fields(v) is Some
    }

    open spec fn decodes_to(v: JVal, r: Img) -> bool {
        img_fields(v) == Some((r.img@, r.text@))
    }

    fn keys() -> (r: Vec<String>) {
        let r = vec!["img".to_owned(), "text".to_owned()];
        proof {
            assert(crate::finder::strings_model(r) =~= seq!["img"@, "text"@]);
        }
        r
    }

    fn decode(v: &Value) -> (r: Option<Img>) {
        match v {
            Value::Object(m) => {
                let img = lookup_str(m, "img");
                let text = lookup_str(m, "text");
                match (img, text) {
                    (Some(img), Some(text)) => Some(Img { img, text }),
                    _ => None,
                }
            },
            _ => None,
        }
    }
}


/// Whether `n` stands somewhere in `h` as a contiguous part.
pub open spec fn is_substring(n: Seq<char>, h: Seq<char>) -> bool {
    exists|i: int| 0 <= i <= h.len() - n.len() && #[trigger] h.subrange(i, i + n.len()) == n
}

/// Relies on `str::contains` with a `&str` pattern: whether the text holds the
/// pattern as a contiguous part.
#[verifier::external_body]
fn str_contains(h: &str, n: &str) -> (r: bool)
    ensures
        r == is_substring(n@, h@),
{
    h.contains(n)
}

/// The last component of a path, when it names a file.
pub uninterp spec fn file_name_of(p: Seq<char>) -> Option<Seq<char>>;

/// Relies on `std::path::Path::file_name`: the final component of a path,
/// none when the path ends in `..` or is a root; a UTF-8 path has UTF-8
/// components.
#[verifier::external_body]
fn path_file_name(p: &str) -> (r: Option<String>)
    ensures
        match r {
            Some(s) => file_name_of(p@) == Some(s@),
            None => file_name_of(p@) is None,
        },
{
    match std::path::Path::new(p).file_name() {
        Some(n) => Some(n.to_string_lossy().into_owned()),
        None => None,
    }
}

impl Img {
    /// The file name of the image's path, under which it is saved.
    pub fn filename(&self) -> (r: Option<String>)
        ensures
            match r {
                Some(s) => file_name_of(self.img@) == Some(s@),
                None => file_name_of(self.img@) is None,
            },
    {
        path_file_name(self.img.as_str())
    }
}

/// A job: the list to read, the directory its images are under, and the
/// text that the path of an image to fetch contains.
#[derive(Debug)]
pub struct Task {
    pub list: String,
    pub dir: String,
    pub contains: String,
}

/// The images of `s` whose path contains `c`, in order.
pub open spec fn selected(s: Seq<Img>, c: Seq<char>) -> Seq<Img>
    decreases s.len(),
{
    if s.len() == 0 {
        Seq::empty()
    } else {
        let rest = selected(s.drop_first(), c);
        if is_substring(c, s[0].img@) {
            seq![s[0]] + rest
        } else {
            rest
        }
    }
}

impl Task {
    pub fn new(list: String, dir: String, contains: String) -> (r: Task)
        ensures
            r.list == list,
            r.dir == dir,
            r.contains == contains,
    {
        Task { list, dir, contains }
    }

    /// The satellite images.
    pub fn new_sat(contains: String) -> (r: Task)
        ensures
            r.list@ == OBSERVE_SAT_LIST@,
            r.dir@ == OBSERVE_SAT_DIR@,
            r.contains == contains,
    {
        Task::new(OBSERVE_SAT_LIST.to_owned(), OBSERVE_SAT_DIR.to_owned(), contains)
    }

    /// The radar echo images.
    pub fn new_radar(contains: String) -> (r: Task)
        ensures
            r.list@ == OBSERVE_RADAR_LIST@,
            r.dir@ == OBSERVE_RADAR_DIR@,
            r.contains == contains,
    {
        Task::new(OBSERVE_RADAR_LIST.to_owned(), OBSERVE_RADAR_DIR.to_owned(), contains)
    }

    /// The radar rainfall images.
    pub fn new_radar_rain(contains: String) -> (r: Task)
        ensures
            r.list@ == OBSERVE_RADAR_RAIN_LIST@,
            r.dir@ == OBSERVE_RADAR_RAIN_DIR@,
            r.contains == contains,
    {
        Task::new(OBSERVE_RADAR_RAIN_LIST.to_owned(), OBSERVE_RADAR_RAIN_DIR.to_owned(), contains)
    }

    /// The images of a list that this job fetches, in list order.
    pub fn targets(&self, list: Vec<Img>) -> (r: Vec<Img>)
        ensures
            r@ == selected(list@, self.contains@),
    {
        let ghost all = list@;
        let mut rest = list;
        let mut r: Vec<Img> = Vec::new();
        while rest.len() > 0
            invariant
                r@ + selected(rest@, self.contains@) == selected(all, self.contains@),
            decreases rest.len(),
        {
            let ghost before = rest@;
            let x = rest.remove(0);
            proof {
                assert(rest@ =~= before.drop_first());
            }
            if str_contains(x.img.as_str(), self.contains.as_str()) {
                let ghost r0 = r@;
                r.push(x);
                proof {
                    assert(r@ + selected(rest@, self.contains@) =~= r0 + (seq![before[0]]
                        + selected(rest@, self.contains@)));
                }
            }
        }
        proof {
            assert(r@ + selected(rest@, self.contains@) =~= r@);
        }
        r
    }
}

/// 1024 to the power `k`.
pub open spec fn pow1024(k: nat) -> nat
    decreases k,
{
    if k == 0 {
        1
    } else {
        1024 * pow1024((k - 1) as nat)
    }
}

/// The binary unit (none, K, M, G, T as 0 to 4) a byte count is shown in:
/// the largest power of 1024 up to the count, T at most.
pub open spec fn unit_of(size: nat) -> nat {
    if size >= pow1024(4) {
        4
    } else if size >= pow1024(3) {
        3
    } else if size >= pow1024(2) {
        2
    } else if size >= pow1024(1) {
        1
    } else {
        0
    }
}

/// The unit a byte count is shown in.
pub fn size_unit(size: u64) -> (r: usize)
    ensures
        r == unit_of(size as nat),
        r <= 4,
        r > 0 ==> size >= pow1024(r as nat),
        r < 4 ==> size < pow1024((r + 1) as nat),
{
    proof {
        reveal_with_fuel(pow1024, 6);
    }
    let mut r: usize = 0;
    let mut bound: u64 = 1024;
    while r < 4 && size >= bound
        invariant
            r <= 4,
            bound == pow1024((r + 1) as nat),
            r > 0 ==> size >= pow1024(r as nat),
            pow1024(5) == 1125899906842624,
            pow1024(4) == 1099511627776,
            pow1024(3) == 1073741824,
            pow1024(2) == 1048576,
            pow1024(1) == 1024,
        decreases 4 - r,
    {
        r += 1;
        bound = bound * 1024;
    }
    r
}


/// The decimal digit `d`.
pub open spec fn digit_of(d: nat) -> char {
    if d == 0 {
        '0'
    } else if d == 1 {
        '1'
    } else if d == 2 {
        '2'
    } else if d == 3 {
        '3'
    } else if d == 4 {
        '4'
    } else if d == 5 {
        '5'
    } else if d == 6 {
        '6'
    } else if d == 7 {
        '7'
    } else if d == 8 {
        '8'
    } else {
        '9'
    }
}

/// The decimal numeral of `n`, without leading zeros.
pub open spec fn decimal(n: nat) -> Seq<char>
    decreases n,
{
    if n < 10 {
        seq![digit_of(n)]
    } else {
        decimal(n / 10).push(digit_of(n % 10))
    }
}

/// `num / den` rounded to the nearest integer, a tie to the even one.
pub open spec fn round_half_even(num: nat, den: nat) -> nat
    recommends
        den > 0,
{
    let q = num / den;
    let r = num % den;
    if 2 * r > den || (2 * r == den && q % 2 == 1) {
        q + 1
    } else {
        q
    }
}

/// The letter of a unit; a space for bytes.
pub open spec fn unit_char(u: nat) -> char {
    if u == 0 {
        ' '
    } else if u == 1 {
        'K'
    } else if u == 2 {
        'M'
    } else if u == 3 {
        'G'
    } else {
        'T'
    }
}

/// A byte count in its unit with two decimals, as in `1.50KB`.
pub open spec fn size_text(size: nat) -> Seq<char> {
    let u = unit_of(size);
    let n = round_half_even(size * 100, pow1024(u));
    decimal(n / 100) + seq![
        '.',
        digit_of((n % 100) / 10),
        digit_of(n % 10),
        unit_char(u),
        'B',
    ]
}

/// Relies on `String::push`: appends the character at the end.
#[verifier::external_body]
fn push_char(s: &mut String, c: char)
    ensures
        final(s)@ == old(s)@.push(c),
{
    s.push(c)
}

fn digit(d: u128) -> (c: char)
    requires
        d < 10,
    ensures
        c == digit_of(d as nat),
{
    if d == 0 {
        '0'
    } else if d == 1 {
        '1'
    } else if d == 2 {
        '2'
    } else if d == 3 {
        '3'
    } else if d == 4 {
        '4'
    } else if d == 5 {
        '5'
    } else if d == 6 {
        '6'
    } else if d == 7 {
        '7'
    } else if d == 8 {
        '8'
    } else {
        '9'
    }
}

fn push_decimal(s: &mut String, n: u128)
    ensures
        final(s)@ == old(s)@ + decimal(n as nat),
    decreases n,
{
    if n >= 10 {
        push_decimal(s, n / 10);
    }
    let ghost mid = s@;
    push_char(s, digit(n % 10));
    proof {
        if n >= 10 {
            assert(s@ =~= old(s)@ + decimal(n as nat));
        } else {
            assert(s@ =~= old(s)@ + decimal(n as nat));
        }
    }
}

/// A byte count in the largest binary unit up to it (T at most), with two
/// decimals rounded half to even: `human_size(1536)` is `1.50KB`.
pub fn human_size(size: usize) -> (r: String)
    ensures
        r@ == size_text(size as nat),
{
    proof {
        reveal_with_fuel(pow1024, 5);
    }
    let u = size_unit(size as u64);
    let den: u128 = if u == 0 {
        1
    } else if u == 1 {
        1024
    } else if u == 2 {
        1048576
    } else if u == 3 {
        1073741824
    } else {
        1099511627776
    };
    assert(den == pow1024(u as nat));
    let num: u128 = size as u128 * 100;
    let q = num / den;
    let rem = num % den;
    let n: u128 = if 2 * rem > den || (2 * rem == den && q % 2 == 1) {
        q + 1
    } else {
        q
    };
    assert(n == round_half_even(size as nat * 100, pow1024(u as nat)));
    let mut s = String::new();
    push_decimal(&mut s, n / 100);
    push_char(&mut s, '.');
    push_char(&mut s, digit((n % 100) / 10));
    push_char(&mut s, digit(n % 10));
    let c = if u == 0 {
        ' '
    } else if u == 1 {
        'K'
    } else if u == 2 {
        'M'
    } else if u == 3 {
        'G'
    } else {
        'T'
    };
    push_char(&mut s, c);
    push_char(&mut s, 'B');
    proof {
        assert(s@ =~= size_text(size as nat));
    }
    s
}

} // verus!
