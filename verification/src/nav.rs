//! Directory entries: their listing order and the text shown about them.
use vstd::prelude::*;
use crate::order::{keys_of, listing_order, order_by_keys, SortKey};
use crate::paths::{extension, path_extension};
use crate::text::{
    chars_of, decimal, decimal_chars, digit, digit_char, lowercase, push_all, spells, string_of,
    to_lowercase,
};

verus! {

/// One entry of a directory listing.
#[derive(Debug)]
pub struct FileEntry {
    pub name: String,
    pub path: String,
    pub is_dir: bool,
    pub size: u64,
    pub is_hidden: bool,
}

/// A name is hidden when it starts with a dot.
pub open spec fn hidden_name(name: Seq<char>) -> bool {
    name.len() > 0 && name[0] == '.'
}

impl FileEntry {
    /// The entry for `name` at `path`; it is hidden when its name starts
    /// with a dot.
    pub fn new(name: String, path: String, is_dir: bool, size: u64) -> (r: FileEntry)
        ensures
            r.name == name,
            r.path == path,
            r.is_dir == is_dir,
            r.size == size,
            r.is_hidden == hidden_name(name@),
    {
        let cs = chars_of(name.as_str());
        let is_hidden = cs.len() > 0 && cs[0] == '.';
        FileEntry { name, path, is_dir, size, is_hidden }
    }

    /// A copy of this entry.
    pub fn copy(&self) -> (r: FileEntry)
        ensures
            r == *self,
    {
        FileEntry {
            name: self.name.clone(),
            path: self.path.clone(),
            is_dir: self.is_dir,
            size: self.size,
            is_hidden: self.is_hidden,
        }
    }
}

/// The sort keys of a listing: directory flag and lower-cased name.
pub open spec fn entry_keys(entries: Seq<FileEntry>) -> Seq<SortKey> {
    Seq::new(entries.len(), |i: int| (entries[i].is_dir, lowercase(entries[i].name@)))
}

/// The entries of a listing in the order they are shown: directories first,
/// then files, each group by case-insensitive name, ties in read order.
pub open spec fn sorted_listing(entries: Seq<FileEntry>) -> Seq<FileEntry> {
    listing_order(entry_keys(entries)).map_values(|k: usize| entries[k as int])
}

/// Sorts a directory listing: directories first, then files, each group
/// alphabetically (case-insensitive); entries that compare equal keep
/// their order.
pub fn sort_entries(entries: Vec<FileEntry>) -> (r: Vec<FileEntry>)
    ensures
        r@ == sorted_listing(entries@),
{
    let mut dirs: Vec<bool> = Vec::new();
    let mut names: Vec<Vec<char>> = Vec::new();
    let mut i: usize = 0;
    while i < entries.len()
        invariant
            i <= entries@.len(),
            dirs@.len() == i,
            names@.len() == i,
            forall|k: int| 0 <= k < i ==> #[trigger] dirs@[k] == entries@[k].is_dir,
            forall|k: int| 0 <= k < i ==> #[trigger] names@[k]@ == lowercase(entries@[k].name@),
        decreases entries@.len() - i,
    {
        dirs.push(entries[i].is_dir);
        let low = to_lowercase(entries[i].name.as_str());
        names.push(chars_of(low.as_str()));
        i = i + 1;
    }
    assert(keys_of(dirs@, names@) =~= entry_keys(entries@));
    let ord = order_by_keys(&dirs, &names);
    proof { crate::order::lemma_listing_order_sorts(entry_keys(entries@)); }
    let mut out: Vec<FileEntry> = Vec::new();
    let mut k: usize = 0;
    while k < ord.len()
        invariant
            k <= ord@.len(),
            ord@ == listing_order(entry_keys(entries@)),
            crate::order::sorts(ord@, entry_keys(entries@)),
            out@ == ord@.take(k as int).map_values(|j: usize| entries@[j as int]),
        decreases ord@.len() - k,
    {
        let j = ord[k];
        out.push(entries[j].copy());
        k = k + 1;
        assert(out@ =~= ord@.take(k as int).map_values(|j: usize| entries@[j as int]));
    }
    assert(ord@.take(ord@.len() as int) =~= ord@);
    out
}

/// A sorted listing holds the entries it was given, each once, with every
/// directory before every file and, within each group, names in
/// case-insensitive order.
pub proof fn lemma_sorted_listing(entries: Seq<FileEntry>)
    requires
        entries.len() <= usize::MAX,
    ensures
        sorted_listing(entries).len() == entries.len(),
        forall|a: int, b: int|
            0 <= a < b < entries.len() ==> !(!(#[trigger] sorted_listing(entries)[a]).is_dir
                && (#[trigger] sorted_listing(entries)[b]).is_dir),
        forall|a: int, b: int|
            0 <= a < b < entries.len() && (#[trigger] sorted_listing(entries)[a]).is_dir == (
            #[trigger] sorted_listing(entries)[b]).is_dir ==> !crate::order::chars_lt(
                lowercase(sorted_listing(entries)[b].name@),
                lowercase(sorted_listing(entries)[a].name@),
            ),
        forall|i: int|
            #![trigger entries[i]]
            0 <= i < entries.len() ==> exists|k: int|
                0 <= k < entries.len() && #[trigger] sorted_listing(entries)[k] == entries[i],
{
    let keys = entry_keys(entries);
    let ord = listing_order(keys);
    crate::order::lemma_listing_order_sorts(keys);
    let r = sorted_listing(entries);
    assert forall|a: int, b: int| 0 <= a < b < entries.len() implies !(!(#[trigger] r[a]).is_dir
        && (#[trigger] r[b]).is_dir) by {
        assert(!crate::order::before(keys[ord[b] as int], keys[ord[a] as int]));
    }
    assert forall|a: int, b: int|
        0 <= a < b < entries.len() && (#[trigger] r[a]).is_dir == (#[trigger] r[b]).is_dir implies !crate::order::chars_lt(
        lowercase(r[b].name@),
        lowercase(r[a].name@),
    ) by {
        assert(!crate::order::before(keys[ord[b] as int], keys[ord[a] as int]));
    }
    assert forall|i: int|
        #![trigger entries[i]]
        0 <= i < entries.len() implies exists|k: int|
            0 <= k < entries.len() && #[trigger] r[k] == entries[i] by {
        crate::order::lemma_listing_order_complete(keys, i);
        let k = choose|k: int| 0 <= k < ord.len() && ord[k] == i as usize;
        assert(r[k] == entries[i]);
    }
}

// ---------------------------------------------------------------------
// Sizes
// ---------------------------------------------------------------------

/// `n / d` rounded to the nearest integer, ties to the even one.
pub open spec fn round_half_even(n: nat, d: nat) -> nat {
    let q = n / d;
    let r = n % d;
    if 2 * r > d || (2 * r == d && q % 2 == 1) {
        q + 1
    } else {
        q
    }
}

/// The spacing of the `f64` values around `b`: 1 below 2^53, doubling with
/// each further bit.
pub open spec fn f64_spacing(b: nat) -> nat
    decreases b,
{
    if b < 0x20_0000_0000_0000 {
        1
    } else {
        2 * f64_spacing(b / 2)
    }
}

/// The value of `b as f64`: the nearest `f64`, ties to an even significand.
pub open spec fn as_f64(b: nat) -> nat {
    round_half_even(b, f64_spacing(b)) * f64_spacing(b)
}

/// The numeral of `t / 10` with one decimal, then `unit`.
pub open spec fn tenths_text(t: nat, unit: char) -> Seq<char> {
    decimal(t / 10) + seq!['.', digit_char(t % 10), unit]
}

/// The text `format_size` gives: bytes below 1 KiB as `"<n>B"`, larger sizes
/// with one decimal in K, M or G (binary units), as `{:.1}` prints the
/// `f64` quotient: rounded to the nearest tenth, ties to even.
pub open spec fn size_text(bytes: nat) -> Seq<char> {
    if bytes >= 0x4000_0000 {
        tenths_text(round_half_even(as_f64(bytes) * 10, 0x4000_0000), 'G')
    } else if bytes >= 0x10_0000 {
        tenths_text(round_half_even(bytes * 10, 0x10_0000), 'M')
    } else if bytes >= 0x400 {
        tenths_text(round_half_even(bytes * 10, 0x400), 'K')
    } else {
        decimal(bytes).push('B')
    }
}

fn rounded_div(n: u128, d: u128) -> (r: u128)
    requires
        d > 0,
        n <= 0xFFFF_FFFF_FFFF_FFFF_FFFF,
    ensures
        r == round_half_even(n as nat, d as nat),
        r <= n / d + 1,
{
    let q = n / d;
    let r = n % d;
    assert(q <= n) by (nonlinear_arith) requires d > 0, q == n / d;
    if (r > d - r) || (r == d - r && q % 2 == 1) {
        q + 1
    } else {
        q
    }
}

proof fn lemma_spacing_step(b: nat, pw: nat)
    requires
        pw > 0,
        b / pw >= 0x20_0000_0000_0000,
    ensures
        f64_spacing(b / pw) == 2 * f64_spacing(b / (pw * 2)),
        (b / pw) / 2 == b / (pw * 2),
{
    vstd::arithmetic::div_mod::lemma_div_denominator(b as int, pw as int, 2);
}

/// `b as f64`, as an integer (see `as_f64`).
fn f64_value(b: u64) -> (r: u128)
    ensures
        r == as_f64(b as nat),
        r <= 0x2_0000_0000_0000_0000,
{
    let mut pw: u128 = 1;
    let mut t: u64 = b;
    while t >= 0x20_0000_0000_0000
        invariant
            pw >= 1,
            pw <= 0x1_0000_0000_0000_0000,
            t as nat == (b as nat) / (pw as nat),
            f64_spacing(b as nat) == pw * f64_spacing(t as nat),
            t as nat * pw <= b,
        decreases t,
    {
        proof {
            lemma_spacing_step(b as nat, pw as nat);
            assert(pw * 2 <= 0x1_0000_0000_0000_0000) by (nonlinear_arith)
                requires t as nat == (b as nat) / (pw as nat), t >= 0x20_0000_0000_0000, t as nat * pw <= b, b < 0x1_0000_0000_0000_0000;
            assert((t / 2) as nat * (pw * 2) <= b) by (nonlinear_arith)
                requires t as nat * pw <= b;
            assert(pw * (2 * f64_spacing((t / 2) as nat)) == (pw * 2) * f64_spacing((t / 2) as nat)) by (nonlinear_arith);
        }
        t = t / 2;
        pw = pw * 2;
    }
    assert(f64_spacing(t as nat) == 1);
    assert(f64_spacing(b as nat) == pw) by (nonlinear_arith)
        requires f64_spacing(b as nat) == pw * f64_spacing(t as nat), f64_spacing(t as nat) == 1;
    let q = rounded_div(b as u128, pw);
    assert(q <= b as nat + 1) by (nonlinear_arith) requires q == round_half_even(b as nat, pw as nat), pw >= 1;
    assert(q * pw <= 0x2_0000_0000_0000_0000) by (nonlinear_arith)
        requires q <= (b as nat) / (pw as nat) + 1, pw <= 0x1_0000_0000_0000_0000, (b as nat) < 0x1_0000_0000_0000_0000;
    q * pw
}

/// The digits of `t / 10`, a dot, the digit `t % 10` and `unit`.
fn tenths(t: u128, unit: char) -> (r: String)
    requires
        t < 0x1_0000_0000_0000_0000,
    ensures
        r@ == tenths_text(t as nat, unit),
{
    let t64 = t as u64;
    let mut out = decimal_chars(t64 / 10);
    out.push('.');
    out.push(digit(t64 % 10));
    out.push(unit);
    assert(out@ =~= tenths_text(t as nat, unit));
    string_of(out.as_slice())
}

/// Format a byte count into a human-readable string (see `size_text`).
pub fn format_size(bytes: u64) -> (r: String)
    ensures
        r@ == size_text(bytes as nat),
{
    if bytes >= 0x4000_0000 {
        let v = f64_value(bytes);
        let t = rounded_div(v * 10, 0x4000_0000);
        assert(t < 0x1_0000_0000_0000_0000);
        tenths(t, 'G')
    } else if bytes >= 0x10_0000 {
        tenths(rounded_div((bytes as u128) * 10, 0x10_0000), 'M')
    } else if bytes >= 0x400 {
        tenths(rounded_div((bytes as u128) * 10, 0x400), 'K')
    } else {
        let mut out = decimal_chars(bytes);
        out.push('B');
        string_of(out.as_slice())
    }
}

// ---------------------------------------------------------------------
// Permissions and ages
// ---------------------------------------------------------------------

/// `c` when the permission `bit` is set in the low nine bits of `mode`.
pub open spec fn perm_char(mode: u32, bit: u32, c: char) -> char {
    if (mode & 0o777) & bit != 0 {
        c
    } else {
        '-'
    }
}

/// The `rwxrwxrwx` form of a Unix mode: user, group, other.
pub open spec fn perm_text(mode: u32) -> Seq<char> {
    seq![
        perm_char(mode, 0o400, 'r'),
        perm_char(mode, 0o200, 'w'),
        perm_char(mode, 0o100, 'x'),
        perm_char(mode, 0o040, 'r'),
        perm_char(mode, 0o020, 'w'),
        perm_char(mode, 0o010, 'x'),
        perm_char(mode, 0o004, 'r'),
        perm_char(mode, 0o002, 'w'),
        perm_char(mode, 0o001, 'x'),
    ]
}

/// The permission text has nine places, user, group and other each reading
/// `r`, `w`, `x`; the place for bit `8 - i` of the mode (counting from the
/// lowest) shows its letter when that bit is set and `-` when it is not.
pub proof fn lemma_perm_places(mode: u32, i: int)
    requires
        0 <= i < 9,
    ensures
        perm_text(mode).len() == 9,
        ((mode >> (8 - i) as u32) & 1 == 1) ==> perm_text(mode)[i] == (if i % 3 == 0 {
            'r'
        } else if i % 3 == 1 {
            'w'
        } else {
            'x'
        }),
        ((mode >> (8 - i) as u32) & 1 == 0) ==> perm_text(mode)[i] == '-',
{
    let m = mode;
    if i == 0 {
        assert(((m & 0o777) & 0o400 != 0) == ((m >> 8u32) & 1 == 1)) by (bit_vector);
    } else if i == 1 {
        assert(((m & 0o777) & 0o200 != 0) == ((m >> 7u32) & 1 == 1)) by (bit_vector);
    } else if i == 2 {
        assert(((m & 0o777) & 0o100 != 0) == ((m >> 6u32) & 1 == 1)) by (bit_vector);
    } else if i == 3 {
        assert(((m & 0o777) & 0o040 != 0) == ((m >> 5u32) & 1 == 1)) by (bit_vector);
    } else if i == 4 {
        assert(((m & 0o777) & 0o020 != 0) == ((m >> 4u32) & 1 == 1)) by (bit_vector);
    } else if i == 5 {
        assert(((m & 0o777) & 0o010 != 0) == ((m >> 3u32) & 1 == 1)) by (bit_vector);
    } else if i == 6 {
        assert(((m & 0o777) & 0o004 != 0) == ((m >> 2u32) & 1 == 1)) by (bit_vector);
    } else if i == 7 {
        assert(((m & 0o777) & 0o002 != 0) == ((m >> 1u32) & 1 == 1)) by (bit_vector);
    } else {
        assert(((m & 0o777) & 0o001 != 0) == ((m >> 0u32) & 1 == 1)) by (bit_vector);
    }
    let sh: u32 = (8 - i) as u32;
    assert((m >> sh) & 1 == 1 || (m >> sh) & 1 == 0) by (bit_vector);
}

/// Format a Unix permission triple (rwx for user/group/other) of `mode`.
pub fn format_perms(mode: u32) -> (r: String)
    ensures
        r@ == perm_text(mode),
{
    let m = mode & 0o777;
    let bits: [(u32, char); 9] = [
        (0o400, 'r'),
        (0o200, 'w'),
        (0o100, 'x'),
        (0o040, 'r'),
        (0o020, 'w'),
        (0o010, 'x'),
        (0o004, 'r'),
        (0o002, 'w'),
        (0o001, 'x'),
    ];
    let mut out: Vec<char> = Vec::new();
    let mut i: usize = 0;
    while i < 9
        invariant
            i <= 9,
            m == mode & 0o777,
            bits@ == seq![
                (0o400u32, 'r'),
                (0o200u32, 'w'),
                (0o100u32, 'x'),
                (0o040u32, 'r'),
                (0o020u32, 'w'),
                (0o010u32, 'x'),
                (0o004u32, 'r'),
                (0o002u32, 'w'),
                (0o001u32, 'x'),
            ],
            out@ == perm_text(mode).take(i as int),
        decreases 9 - i,
    {
        let (b, c) = bits[i];
        out.push(if m & b != 0 { c } else { '-' });
        i = i + 1;
        assert(out@ =~= perm_text(mode).take(i as int));
    }
    assert(perm_text(mode).take(9) =~= perm_text(mode));
    string_of(out.as_slice())
}

/// `n` followed by the unit word and `" ago"`.
pub open spec fn ago(n: nat, unit: Seq<char>) -> Seq<char> {
    decimal(n) + unit + " ago"@
}

/// The relative age shown for a modification time `secs` seconds ago;
/// `None` means the time lies in the future.
pub open spec fn age_text(secs: Option<u64>) -> Seq<char> {
    match secs {
        None => "in the future"@,
        Some(s) => if s < 60 {
            ago(s as nat, "s"@)
        } else if s < 3600 {
            ago((s / 60) as nat, "m"@)
        } else if s < 86400 {
            ago((s / 3600) as nat, "h"@)
        } else if s < 604800 {
            ago((s / 86400) as nat, "d"@)
        } else if s < 2592000 {
            ago((s / 604800) as nat, "w"@)
        } else if s < 31536000 {
            ago((s / 2592000) as nat, "mo"@)
        } else {
            ago((s / 31536000) as nat, "y"@)
        },
    }
}

fn ago_string(n: u64, unit: &str) -> (r: String)
    ensures
        r@ == ago(n as nat, unit@),
{
    let mut out = decimal_chars(n);
    let u = chars_of(unit);
    push_all(&mut out, u.as_slice());
    let a = chars_of(" ago");
    push_all(&mut out, a.as_slice());
    string_of(out.as_slice())
}

/// Render an age of `secs` seconds as a relative description ("3m ago",
/// "2d ago"); `None` stands for a time in the future.
pub fn format_age(secs: Option<u64>) -> (r: String)
    ensures
        r@ == age_text(secs),
{
    match secs {
        None => {
            let cs = chars_of("in the future");
            string_of(cs.as_slice())
        },
        Some(s) => if s < 60 {
            ago_string(s, "s")
        } else if s < 3600 {
            ago_string(s / 60, "m")
        } else if s < 86400 {
            ago_string(s / 3600, "h")
        } else if s < 604800 {
            ago_string(s / 86400, "d")
        } else if s < 2592000 {
            ago_string(s / 604800, "w")
        } else if s < 31536000 {
            ago_string(s / 2592000, "mo")
        } else {
            ago_string(s / 31536000, "y")
        },
    }
}

#[verifier::external_type_specification]
#[verifier::external_body]
pub struct ExSystemTime(std::time::SystemTime);

/// Calls `SystemTime::elapsed` on `t`: the whole seconds from `t` to the
/// current time, or `None` when `t` lies in the future. It reads the clock,
/// so nothing is stated of the value.
#[verifier::external_body]
fn seconds_since(t: std::time::SystemTime) -> (r: Option<u64>) {
    t.elapsed().ok().map(|d| d.as_secs())
}

/// Render a `SystemTime` as a relative-from-now description ("3m ago",
/// "2d ago"): what `format_age` gives for the seconds elapsed since `t`.
pub fn format_modified(t: std::time::SystemTime) -> (r: String)
    ensures
        exists|secs: Option<u64>| r@ == age_text(secs),
{
    format_age(seconds_since(t))
}

// ---------------------------------------------------------------------
// File types
// ---------------------------------------------------------------------

/// The label shown for a file extension: a short name for the known ones,
/// the extension itself for any other, `"file"` without one.
pub open spec fn type_label(ext: Option<Seq<char>>) -> Seq<char> {
    match ext {
        None => "file"@,
        Some(e) => if e == "rs"@ {
            "rust"@
        } else if e == "toml"@ {
            "toml"@
        } else if e == "md"@ {
            "markdown"@
        } else if e == "json"@ {
            "json"@
        } else if e == "yaml"@ || e == "yml"@ {
            "yaml"@
        } else if e == "py"@ {
            "python"@
        } else if e == "ts"@ || e == "tsx"@ {
            "typescript"@
        } else if e == "js"@ || e == "jsx"@ {
            "javascript"@
        } else if e == "go"@ {
            "go"@
        } else if e == "c"@ {
            "c"@
        } else if e == "cpp"@ || e == "cc"@ || e == "hpp"@ || e == "h"@ {
            "c++"@
        } else if e == "png"@ || e == "jpg"@ || e == "jpeg"@ || e == "gif"@ {
            "image"@
        } else if e == "txt"@ {
            "text"@
        } else if e == "sh"@ || e == "bash"@ || e == "zsh"@ {
            "shell"@
        } else if e == "html"@ || e == "htm"@ {
            "html"@
        } else if e == "css"@ {
            "css"@
        } else if e == "lock"@ {
            "lockfile"@
        } else {
            e
        },
    }
}

/// What the first listed extensions are called, for any path that has one:
/// `rs` is `rust`, `toml` `toml`, `md` `markdown`, `json` `json`, `yaml` and
/// `yml` `yaml`, `py` `python`; a path without an extension is a `file`.
#[verifier::rlimit(50)]
pub proof fn lemma_known_types(path: Seq<char>, detected: Seq<char>)
    requires
        detected == type_label(path_extension(path)),
    ensures
        path_extension(path) == Some("rs"@) ==> detected == "rust"@,
        path_extension(path) == Some("toml"@) ==> detected == "toml"@,
        path_extension(path) == Some("md"@) ==> detected == "markdown"@,
        path_extension(path) == Some("json"@) ==> detected == "json"@,
        path_extension(path) == Some("yaml"@) ==> detected == "yaml"@,
        path_extension(path) == Some("yml"@) ==> detected == "yaml"@,
        path_extension(path) == Some("py"@) ==> detected == "python"@,
        path_extension(path) is None ==> detected == "file"@,
{
    reveal_strlit("file");
    reveal_strlit("json");
    reveal_strlit("markdown");
    reveal_strlit("md");
    reveal_strlit("py");
    reveal_strlit("python");
    reveal_strlit("rs");
    reveal_strlit("rust");
    reveal_strlit("toml");
    reveal_strlit("yaml");
    reveal_strlit("yml");
    assert("md"@[0] != "rs"@[0]);
    assert("json"@[0] != "toml"@[0]);
    assert("yaml"@[0] != "toml"@[0]);
    assert("yaml"@[0] != "json"@[0]);
    assert("py"@[0] != "rs"@[0]);
    assert("py"@[0] != "md"@[0]);
    assert("toml"@.len() != "rs"@.len());
    assert("md"@.len() != "toml"@.len());
    assert("json"@.len() != "rs"@.len());
    assert("json"@.len() != "md"@.len());
    assert("yaml"@.len() != "rs"@.len());
    assert("yaml"@.len() != "md"@.len());
    assert("yml"@.len() != "rs"@.len());
    assert("yml"@.len() != "toml"@.len());
    assert("yml"@.len() != "md"@.len());
    assert("yml"@.len() != "json"@.len());
    assert("yml"@.len() != "yaml"@.len());
    assert("py"@.len() != "toml"@.len());
    assert("py"@.len() != "json"@.len());
    assert("py"@.len() != "yaml"@.len());
    assert("py"@.len() != "yml"@.len());
}

/// What the next listed extensions are called, for any path that has one:
/// `ts`/`tsx` are `typescript`, `js`/`jsx` `javascript`, `go` `go`, `c` `c`,
/// `cpp`/`cc`/`hpp`/`h` `c++`.
#[verifier::rlimit(50)]
pub proof fn lemma_known_code_types(path: Seq<char>, detected: Seq<char>)
    requires
        detected == type_label(path_extension(path)),
    ensures
        path_extension(path) == Some("ts"@) ==> detected == "typescript"@,
        path_extension(path) == Some("tsx"@) ==> detected == "typescript"@,
        path_extension(path) == Some("js"@) ==> detected == "javascript"@,
        path_extension(path) == Some("jsx"@) ==> detected == "javascript"@,
        path_extension(path) == Some("go"@) ==> detected == "go"@,
        path_extension(path) == Some("c"@) ==> detected == "c"@,
        path_extension(path) == Some("cpp"@) ==> detected == "c++"@,
        path_extension(path) == Some("cc"@) ==> detected == "c++"@,
        path_extension(path) == Some("hpp"@) ==> detected == "c++"@,
        path_extension(path) == Some("h"@) ==> detected == "c++"@,
{
    reveal_strlit("c");
    reveal_strlit("c++");
    reveal_strlit("cc");
    reveal_strlit("cpp");
    reveal_strlit("go");
    reveal_strlit("h");
    reveal_strlit("hpp");
    reveal_strlit("javascript");
    reveal_strlit("js");
    reveal_strlit("json");
    reveal_strlit("jsx");
    reveal_strlit("md");
    reveal_strlit("py");
    reveal_strlit("rs");
    reveal_strlit("toml");
    reveal_strlit("ts");
    reveal_strlit("tsx");
    reveal_strlit("typescript");
    reveal_strlit("yaml");
    reveal_strlit("yml");
    assert("ts"@[0] != "rs"@[0]);
    assert("ts"@[0] != "md"@[0]);
    assert("ts"@[0] != "py"@[0]);
    assert("tsx"@[0] != "yml"@[0]);
    assert("js"@[0] != "rs"@[0]);
    assert("js"@[0] != "md"@[0]);
    assert("js"@[0] != "py"@[0]);
    assert("js"@[0] != "ts"@[0]);
    assert("jsx"@[0] != "yml"@[0]);
    assert("jsx"@[0] != "tsx"@[0]);
    assert("go"@[0] != "rs"@[0]);
    assert("go"@[0] != "md"@[0]);
    assert("go"@[0] != "py"@[0]);
    assert("go"@[0] != "ts"@[0]);
    assert("go"@[0] != "js"@[0]);
    assert("cpp"@[0] != "yml"@[0]);
    assert("cpp"@[0] != "tsx"@[0]);
    assert("cpp"@[0] != "jsx"@[0]);
    assert("cc"@[0] != "rs"@[0]);
    assert("cc"@[0] != "md"@[0]);
    assert("cc"@[0] != "py"@[0]);
    assert("cc"@[0] != "ts"@[0]);
    assert("cc"@[0] != "js"@[0]);
    assert("cc"@[0] != "go"@[0]);
    assert("hpp"@[0] != "yml"@[0]);
    assert("hpp"@[0] != "tsx"@[0]);
    assert("hpp"@[0] != "jsx"@[0]);
    assert("hpp"@[0] != "cpp"@[0]);
    assert("h"@[0] != "c"@[0]);
    assert("ts"@.len() != "toml"@.len());
    assert("ts"@.len() != "json"@.len());
    assert("ts"@.len() != "yaml"@.len());
    assert("ts"@.len() != "yml"@.len());
    assert("tsx"@.len() != "rs"@.len());
    assert("tsx"@.len() != "toml"@.len());
    assert("tsx"@.len() != "md"@.len());
    assert("tsx"@.len() != "json"@.len());
    assert("tsx"@.len() != "yaml"@.len());
    assert("tsx"@.len() != "py"@.len());
    assert("tsx"@.len() != "ts"@.len());
    assert("js"@.len() != "toml"@.len());
    assert("js"@.len() != "json"@.len());
    assert("js"@.len() != "yaml"@.len());
    assert("js"@.len() != "yml"@.len());
    assert("js"@.len() != "tsx"@.len());
    assert("jsx"@.len() != "rs"@.len());
    assert("jsx"@.len() != "toml"@.len());
    assert("jsx"@.len() != "md"@.len());
    assert("jsx"@.len() != "json"@.len());
    assert("jsx"@.len() != "yaml"@.len());
    assert("jsx"@.len() != "py"@.len());
    assert("jsx"@.len() != "ts"@.len());
    assert("jsx"@.len() != "js"@.len());
    assert("go"@.len() != "toml"@.len());
    assert("go"@.len() != "json"@.len());
    assert("go"@.len() != "yaml"@.len());
    assert("go"@.len() != "yml"@.len());
    assert("go"@.len() != "tsx"@.len());
    assert("go"@.len() != "jsx"@.len());
    assert("c"@.len() != "rs"@.len());
    assert("c"@.len() != "toml"@.len());
    assert("c"@.len() != "md"@.len());
    assert("c"@.len() != "json"@.len());
    assert("c"@.len() != "yaml"@.len());
    assert("c"@.len() != "yml"@.len());
    assert("c"@.len() != "py"@.len());
    assert("c"@.len() != "ts"@.len());
    assert("c"@.len() != "tsx"@.len());
    assert("c"@.len() != "js"@.len());
    assert("c"@.len() != "jsx"@.len());
    assert("c"@.len() != "go"@.len());
    assert("cpp"@.len() != "rs"@.len());
    assert("cpp"@.len() != "toml"@.len());
    assert("cpp"@.len() != "md"@.len());
    assert("cpp"@.len() != "json"@.len());
    assert("cpp"@.len() != "yaml"@.len());
    assert("cpp"@.len() != "py"@.len());
    assert("cpp"@.len() != "ts"@.len());
    assert("cpp"@.len() != "js"@.len());
    assert("cpp"@.len() != "go"@.len());
    assert("cpp"@.len() != "c"@.len());
    assert("cc"@.len() != "toml"@.len());
    assert("cc"@.len() != "json"@.len());
    assert("cc"@.len() != "yaml"@.len());
    assert("cc"@.len() != "yml"@.len());
    assert("cc"@.len() != "tsx"@.len());
    assert("cc"@.len() != "jsx"@.len());
    assert("cc"@.len() != "c"@.len());
    assert("cc"@.len() != "cpp"@.len());
    assert("hpp"@.len() != "rs"@.len());
    assert("hpp"@.len() != "toml"@.len());
    assert("hpp"@.len() != "md"@.len());
    assert("hpp"@.len() != "json"@.len());
    assert("hpp"@.len() != "yaml"@.len());
    assert("hpp"@.len() != "py"@.len());
    assert("hpp"@.len() != "ts"@.len());
    assert("hpp"@.len() != "js"@.len());
    assert("hpp"@.len() != "go"@.len());
    assert("hpp"@.len() != "c"@.len());
    assert("hpp"@.len() != "cc"@.len());
    assert("h"@.len() != "rs"@.len());
    assert("h"@.len() != "toml"@.len());
    assert("h"@.len() != "md"@.len());
    assert("h"@.len() != "json"@.len());
    assert("h"@.len() != "yaml"@.len());
    assert("h"@.len() != "yml"@.len());
    assert("h"@.len() != "py"@.len());
    assert("h"@.len() != "ts"@.len());
    assert("h"@.len() != "tsx"@.len());
    assert("h"@.len() != "js"@.len());
    assert("h"@.len() != "jsx"@.len());
    assert("h"@.len() != "go"@.len());
    assert("h"@.len() != "cpp"@.len());
    assert("h"@.len() != "cc"@.len());
    assert("h"@.len() != "hpp"@.len());
}

/// What the last listed extensions are called, for any path that has one:
/// `png`/`jpg`/`jpeg`/`gif` are `image`, `txt` `text`, `sh`/`bash`/`zsh`
/// `shell`, `html`/`htm` `html`, `css` `css`, `lock` `lockfile`.
#[verifier::rlimit(50)]
pub proof fn lemma_known_other_types(path: Seq<char>, detected: Seq<char>)
    requires
        detected == type_label(path_extension(path)),
    ensures
        path_extension(path) == Some("png"@) ==> detected == "image"@,
        path_extension(path) == Some("jpg"@) ==> detected == "image"@,
        path_extension(path) == Some("jpeg"@) ==> detected == "image"@,
        path_extension(path) == Some("gif"@) ==> detected == "image"@,
        path_extension(path) == Some("txt"@) ==> detected == "text"@,
        path_extension(path) == Some("sh"@) ==> detected == "shell"@,
        path_extension(path) == Some("bash"@) ==> detected == "shell"@,
        path_extension(path) == Some("zsh"@) ==> detected == "shell"@,
        path_extension(path) == Some("html"@) ==> detected == "html"@,
        path_extension(path) == Some("htm"@) ==> detected == "html"@,
        path_extension(path) == Some("css"@) ==> detected == "css"@,
        path_extension(path) == Some("lock"@) ==> detected == "lockfile"@,
{
    reveal_strlit("bash");
    reveal_strlit("c");
    reveal_strlit("cc");
    reveal_strlit("cpp");
    reveal_strlit("css");
    reveal_strlit("gif");
    reveal_strlit("go");
    reveal_strlit("h");
    reveal_strlit("hpp");
    reveal_strlit("htm");
    reveal_strlit("html");
    reveal_strlit("image");
    reveal_strlit("jpeg");
    reveal_strlit("jpg");
    reveal_strlit("js");
    reveal_strlit("json");
    reveal_strlit("jsx");
    reveal_strlit("lock");
    reveal_strlit("lockfile");
    reveal_strlit("md");
    reveal_strlit("png");
    reveal_strlit("py");
    reveal_strlit("rs");
    reveal_strlit("sh");
    reveal_strlit("shell");
    reveal_strlit("text");
    reveal_strlit("toml");
    reveal_strlit("ts");
    reveal_strlit("tsx");
    reveal_strlit("txt");
    reveal_strlit("yaml");
    reveal_strlit("yml");
    reveal_strlit("zsh");
    assert("png"@[0] != "yml"@[0]);
    assert("png"@[0] != "tsx"@[0]);
    assert("png"@[0] != "jsx"@[0]);
    assert("png"@[0] != "cpp"@[0]);
    assert("png"@[0] != "hpp"@[0]);
    assert("jpg"@[0] != "yml"@[0]);
    assert("jpg"@[0] != "tsx"@[0]);
    assert("jpg"@[1] != "jsx"@[1]);
    assert("jpg"@[0] != "cpp"@[0]);
    assert("jpg"@[0] != "hpp"@[0]);
    assert("jpg"@[0] != "png"@[0]);
    assert("jpeg"@[0] != "toml"@[0]);
    assert("jpeg"@[1] != "json"@[1]);
    assert("jpeg"@[0] != "yaml"@[0]);
    assert("gif"@[0] != "yml"@[0]);
    assert("gif"@[0] != "tsx"@[0]);
    assert("gif"@[0] != "jsx"@[0]);
    assert("gif"@[0] != "cpp"@[0]);
    assert("gif"@[0] != "hpp"@[0]);
    assert("gif"@[0] != "png"@[0]);
    assert("gif"@[0] != "jpg"@[0]);
    assert("txt"@[0] != "yml"@[0]);
    assert("txt"@[1] != "tsx"@[1]);
    assert("txt"@[0] != "jsx"@[0]);
    assert("txt"@[0] != "cpp"@[0]);
    assert("txt"@[0] != "hpp"@[0]);
    assert("txt"@[0] != "png"@[0]);
    assert("txt"@[0] != "jpg"@[0]);
    assert("txt"@[0] != "gif"@[0]);
    assert("sh"@[0] != "rs"@[0]);
    assert("sh"@[0] != "md"@[0]);
    assert("sh"@[0] != "py"@[0]);
    assert("sh"@[0] != "ts"@[0]);
    assert("sh"@[0] != "js"@[0]);
    assert("sh"@[0] != "go"@[0]);
    assert("sh"@[0] != "cc"@[0]);
    assert("bash"@[0] != "toml"@[0]);
    assert("bash"@[0] != "json"@[0]);
    assert("bash"@[0] != "yaml"@[0]);
    assert("bash"@[0] != "jpeg"@[0]);
    assert("zsh"@[0] != "yml"@[0]);
    assert("zsh"@[0] != "tsx"@[0]);
    assert("zsh"@[0] != "jsx"@[0]);
    assert("zsh"@[0] != "cpp"@[0]);
    assert("zsh"@[0] != "hpp"@[0]);
    assert("zsh"@[0] != "png"@[0]);
    assert("zsh"@[0] != "jpg"@[0]);
    assert("zsh"@[0] != "gif"@[0]);
    assert("zsh"@[0] != "txt"@[0]);
    assert("html"@[0] != "toml"@[0]);
    assert("html"@[0] != "json"@[0]);
    assert("html"@[0] != "yaml"@[0]);
    assert("html"@[0] != "jpeg"@[0]);
    assert("html"@[0] != "bash"@[0]);
    assert("htm"@[0] != "yml"@[0]);
    assert("htm"@[0] != "tsx"@[0]);
    assert("htm"@[0] != "jsx"@[0]);
    assert("htm"@[0] != "cpp"@[0]);
    assert("htm"@[1] != "hpp"@[1]);
    assert("htm"@[0] != "png"@[0]);
    assert("htm"@[0] != "jpg"@[0]);
    assert("htm"@[0] != "gif"@[0]);
    assert("htm"@[0] != "txt"@[0]);
    assert("htm"@[0] != "zsh"@[0]);
    assert("css"@[0] != "yml"@[0]);
    assert("css"@[0] != "tsx"@[0]);
    assert("css"@[0] != "jsx"@[0]);
    assert("css"@[1] != "cpp"@[1]);
    assert("css"@[0] != "hpp"@[0]);
    assert("css"@[0] != "png"@[0]);
    assert("css"@[0] != "jpg"@[0]);
    assert("css"@[0] != "gif"@[0]);
    assert("css"@[0] != "txt"@[0]);
    assert("css"@[0] != "zsh"@[0]);
    assert("css"@[0] != "htm"@[0]);
    assert("lock"@[0] != "toml"@[0]);
    assert("lock"@[0] != "json"@[0]);
    assert("lock"@[0] != "yaml"@[0]);
    assert("lock"@[0] != "jpeg"@[0]);
    assert("lock"@[0] != "bash"@[0]);
    assert("lock"@[0] != "html"@[0]);
    assert("png"@.len() != "rs"@.len());
    assert("png"@.len() != "toml"@.len());
    assert("png"@.len() != "md"@.len());
    assert("png"@.len() != "json"@.len());
    assert("png"@.len() != "yaml"@.len());
    assert("png"@.len() != "py"@.len());
    assert("png"@.len() != "ts"@.len());
    assert("png"@.len() != "js"@.len());
    assert("png"@.len() != "go"@.len());
    assert("png"@.len() != "c"@.len());
    assert("png"@.len() != "cc"@.len());
    assert("png"@.len() != "h"@.len());
    assert("jpg"@.len() != "rs"@.len());
    assert("jpg"@.len() != "toml"@.len());
    assert("jpg"@.len() != "md"@.len());
    assert("jpg"@.len() != "json"@.len());
    assert("jpg"@.len() != "yaml"@.len());
    assert("jpg"@.len() != "py"@.len());
    assert("jpg"@.len() != "ts"@.len());
    assert("jpg"@.len() != "js"@.len());
    assert("jpg"@.len() != "go"@.len());
    assert("jpg"@.len() != "c"@.len());
    assert("jpg"@.len() != "cc"@.len());
    assert("jpg"@.len() != "h"@.len());
    assert("jpeg"@.len() != "rs"@.len());
    assert("jpeg"@.len() != "md"@.len());
    assert("jpeg"@.len() != "yml"@.len());
    assert("jpeg"@.len() != "py"@.len());
    assert("jpeg"@.len() != "ts"@.len());
    assert("jpeg"@.len() != "tsx"@.len());
    assert("jpeg"@.len() != "js"@.len());
    assert("jpeg"@.len() != "jsx"@.len());
    assert("jpeg"@.len() != "go"@.len());
    assert("jpeg"@.len() != "c"@.len());
    assert("jpeg"@.len() != "cpp"@.len());
    assert("jpeg"@.len() != "cc"@.len());
    assert("jpeg"@.len() != "hpp"@.len());
    assert("jpeg"@.len() != "h"@.len());
    assert("jpeg"@.len() != "png"@.len());
    assert("jpeg"@.len() != "jpg"@.len());
    assert("gif"@.len() != "rs"@.len());
    assert("gif"@.len() != "toml"@.len());
    assert("gif"@.len() != "md"@.len());
    assert("gif"@.len() != "json"@.len());
    assert("gif"@.len() != "yaml"@.len());
    assert("gif"@.len() != "py"@.len());
    assert("gif"@.len() != "ts"@.len());
    assert("gif"@.len() != "js"@.len());
    assert("gif"@.len() != "go"@.len());
    assert("gif"@.len() != "c"@.len());
    assert("gif"@.len() != "cc"@.len());
    assert("gif"@.len() != "h"@.len());
    assert("gif"@.len() != "jpeg"@.len());
    assert("txt"@.len() != "rs"@.len());
    assert("txt"@.len() != "toml"@.len());
    assert("txt"@.len() != "md"@.len());
    assert("txt"@.len() != "json"@.len());
    assert("txt"@.len() != "yaml"@.len());
    assert("txt"@.len() != "py"@.len());
    assert("txt"@.len() != "ts"@.len());
    assert("txt"@.len() != "js"@.len());
    assert("txt"@.len() != "go"@.len());
    assert("txt"@.len() != "c"@.len());
    assert("txt"@.len() != "cc"@.len());
    assert("txt"@.len() != "h"@.len());
    assert("txt"@.len() != "jpeg"@.len());
    assert("sh"@.len() != "toml"@.len());
    assert("sh"@.len() != "json"@.len());
    assert("sh"@.len() != "yaml"@.len());
    assert("sh"@.len() != "yml"@.len());
    assert("sh"@.len() != "tsx"@.len());
    assert("sh"@.len() != "jsx"@.len());
    assert("sh"@.len() != "c"@.len());
    assert("sh"@.len() != "cpp"@.len());
    assert("sh"@.len() != "hpp"@.len());
    assert("sh"@.len() != "h"@.len());
    assert("sh"@.len() != "png"@.len());
    assert("sh"@.len() != "jpg"@.len());
    assert("sh"@.len() != "jpeg"@.len());
    assert("sh"@.len() != "gif"@.len());
    assert("sh"@.len() != "txt"@.len());
    assert("bash"@.len() != "rs"@.len());
    assert("bash"@.len() != "md"@.len());
    assert("bash"@.len() != "yml"@.len());
    assert("bash"@.len() != "py"@.len());
    assert("bash"@.len() != "ts"@.len());
    assert("bash"@.len() != "tsx"@.len());
    assert("bash"@.len() != "js"@.len());
    assert("bash"@.len() != "jsx"@.len());
    assert("bash"@.len() != "go"@.len());
    assert("bash"@.len() != "c"@.len());
    assert("bash"@.len() != "cpp"@.len());
    assert("bash"@.len() != "cc"@.len());
    assert("bash"@.len() != "hpp"@.len());
    assert("bash"@.len() != "h"@.len());
    assert("bash"@.len() != "png"@.len());
    assert("bash"@.len() != "jpg"@.len());
    assert("bash"@.len() != "gif"@.len());
    assert("bash"@.len() != "txt"@.len());
    assert("bash"@.len() != "sh"@.len());
    assert("zsh"@.len() != "rs"@.len());
    assert("zsh"@.len() != "toml"@.len());
    assert("zsh"@.len() != "md"@.len());
    assert("zsh"@.len() != "json"@.len());
    assert("zsh"@.len() != "yaml"@.len());
    assert("zsh"@.len() != "py"@.len());
    assert("zsh"@.len() != "ts"@.len());
    assert("zsh"@.len() != "js"@.len());
    assert("zsh"@.len() != "go"@.len());
    assert("zsh"@.len() != "c"@.len());
    assert("zsh"@.len() != "cc"@.len());
    assert("zsh"@.len() != "h"@.len());
    assert("zsh"@.len() != "jpeg"@.len());
    assert("zsh"@.len() != "sh"@.len());
    assert("zsh"@.len() != "bash"@.len());
    assert("html"@.len() != "rs"@.len());
    assert("html"@.len() != "md"@.len());
    assert("html"@.len() != "yml"@.len());
    assert("html"@.len() != "py"@.len());
    assert("html"@.len() != "ts"@.len());
    assert("html"@.len() != "tsx"@.len());
    assert("html"@.len() != "js"@.len());
    assert("html"@.len() != "jsx"@.len());
    assert("html"@.len() != "go"@.len());
    assert("html"@.len() != "c"@.len());
    assert("html"@.len() != "cpp"@.len());
    assert("html"@.len() != "cc"@.len());
    assert("html"@.len() != "hpp"@.len());
    assert("html"@.len() != "h"@.len());
    assert("html"@.len() != "png"@.len());
    assert("html"@.len() != "jpg"@.len());
    assert("html"@.len() != "gif"@.len());
    assert("html"@.len() != "txt"@.len());
    assert("html"@.len() != "sh"@.len());
    assert("html"@.len() != "zsh"@.len());
    assert("htm"@.len() != "rs"@.len());
    assert("htm"@.len() != "toml"@.len());
    assert("htm"@.len() != "md"@.len());
    assert("htm"@.len() != "json"@.len());
    assert("htm"@.len() != "yaml"@.len());
    assert("htm"@.len() != "py"@.len());
    assert("htm"@.len() != "ts"@.len());
    assert("htm"@.len() != "js"@.len());
    assert("htm"@.len() != "go"@.len());
    assert("htm"@.len() != "c"@.len());
    assert("htm"@.len() != "cc"@.len());
    assert("htm"@.len() != "h"@.len());
    assert("htm"@.len() != "jpeg"@.len());
    assert("htm"@.len() != "sh"@.len());
    assert("htm"@.len() != "bash"@.len());
    assert("htm"@.len() != "html"@.len());
    assert("css"@.len() != "rs"@.len());
    assert("css"@.len() != "toml"@.len());
    assert("css"@.len() != "md"@.len());
    assert("css"@.len() != "json"@.len());
    assert("css"@.len() != "yaml"@.len());
    assert("css"@.len() != "py"@.len());
    assert("css"@.len() != "ts"@.len());
    assert("css"@.len() != "js"@.len());
    assert("css"@.len() != "go"@.len());
    assert("css"@.len() != "c"@.len());
    assert("css"@.len() != "cc"@.len());
    assert("css"@.len() != "h"@.len());
    assert("css"@.len() != "jpeg"@.len());
    assert("css"@.len() != "sh"@.len());
    assert("css"@.len() != "bash"@.len());
    assert("css"@.len() != "html"@.len());
    assert("lock"@.len() != "rs"@.len());
    assert("lock"@.len() != "md"@.len());
    assert("lock"@.len() != "yml"@.len());
    assert("lock"@.len() != "py"@.len());
    assert("lock"@.len() != "ts"@.len());
    assert("lock"@.len() != "tsx"@.len());
    assert("lock"@.len() != "js"@.len());
    assert("lock"@.len() != "jsx"@.len());
    assert("lock"@.len() != "go"@.len());
    assert("lock"@.len() != "c"@.len());
    assert("lock"@.len() != "cpp"@.len());
    assert("lock"@.len() != "cc"@.len());
    assert("lock"@.len() != "hpp"@.len());
    assert("lock"@.len() != "h"@.len());
    assert("lock"@.len() != "png"@.len());
    assert("lock"@.len() != "jpg"@.len());
    assert("lock"@.len() != "gif"@.len());
    assert("lock"@.len() != "txt"@.len());
    assert("lock"@.len() != "sh"@.len());
    assert("lock"@.len() != "zsh"@.len());
    assert("lock"@.len() != "htm"@.len());
    assert("lock"@.len() != "css"@.len());
}

/// A string holding the characters of `s`.
fn owned(s: &str) -> (r: String)
    ensures
        r@ == s@,
{
    string_of(chars_of(s).as_slice())
}

/// The label for an extension (see `type_label`).
pub fn label_for_extension(ext: Option<&str>) -> (r: String)
    ensures
        r@ == type_label(match ext {
            Some(e) => Some(e@),
            None => None,
        }),
{
    match ext {
        None => owned("file"),
        Some(e) => {
            let ec = chars_of(e);
            let e = ec.as_slice();
            if spells(e, "rs") {
                owned("rust")
            } else if spells(e, "toml") {
                owned("toml")
            } else if spells(e, "md") {
                owned("markdown")
            } else if spells(e, "json") {
                owned("json")
            } else if spells(e, "yaml") || spells(e, "yml") {
                owned("yaml")
            } else if spells(e, "py") {
                owned("python")
            } else if spells(e, "ts") || spells(e, "tsx") {
                owned("typescript")
            } else if spells(e, "js") || spells(e, "jsx") {
                owned("javascript")
            } else if spells(e, "go") {
                owned("go")
            } else if spells(e, "c") {
                owned("c")
            } else if spells(e, "cpp") || spells(e, "cc") || spells(e, "hpp") || spells(e, "h") {
                owned("c++")
            } else if spells(e, "png") || spells(e, "jpg") || spells(e, "jpeg") || spells(e, "gif") {
                owned("image")
            } else if spells(e, "txt") {
                owned("text")
            } else if spells(e, "sh") || spells(e, "bash") || spells(e, "zsh") {
                owned("shell")
            } else if spells(e, "html") || spells(e, "htm") {
                owned("html")
            } else if spells(e, "css") {
                owned("css")
            } else if spells(e, "lock") {
                owned("lockfile")
            } else {
                string_of(e)
            }
        },
    }
}

/// Map a file extension to a short human label, falling back to the
/// extension (or `"file"` where there is none).
pub fn detect_type(path: &str) -> (r: String)
    ensures
        r@ == type_label(path_extension(path@)),
{
    match extension(path) {
        Some(e) => label_for_extension(Some(e.as_str())),
        None => label_for_extension(None),
    }
}

} // verus!
