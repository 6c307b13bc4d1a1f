//! The text logic of turning verified Solidity sources into tensors: the
//! compiler version that a source names, the source text that goes into the
//! compiler's standard JSON input, the contract address that a file name
//! gives, and the Yul programs of the compiler's output, each under its key.

use vstd::prelude::*;
use crate::yul::instruction::str_eq;

verus! {

/// The text that group `group` of the first match of the regular
/// expression `pattern` in `text` captures, if the pattern compiles, it
/// matches and the group takes part in the match.
pub uninterp spec fn regex_group(pattern: Seq<char>, text: Seq<char>, group: nat) -> Option<Seq<char>>;

/// Whether `part` stands in `text` at some position.
pub open spec fn is_infix(part: Seq<char>, text: Seq<char>) -> bool {
    exists|i: int| 0 <= i <= text.len() - part.len() && #[trigger] text.subrange(i, i + part.len()) == part
}

/// Compiles `pattern` with `regex::Regex::new`, finds its first match in
/// `text` with `Regex::captures` and takes group `group` of it with
/// `Captures::get`. Claims that the result is a function of the three
/// arguments and, as the crate documents, that a captured group is a part
/// of the text.
#[verifier::external_body]
fn capture_group(pattern: &str, text: &str, group: usize) -> (r: Option<String>)
    ensures
        r matches Some(s) ==> regex_group(pattern@, text@, group as nat) == Some(s@),
        r is None ==> regex_group(pattern@, text@, group as nat) is None,
        r matches Some(s) ==> is_infix(s@, text@),
{
    let re = regex::Regex::new(pattern).ok()?;
    let caps = re.captures(text)?;
    caps.get(group).map(|m| m.as_str().to_string())
}

/// The pattern that finds the version in a compiler version such as
/// `v0.8.11+commit.d7f03943`.
pub open spec fn solc_version_pattern() -> Seq<char> {
    "v(.*?)\\+commit"@
}

/// The version that a compiler version names: what stands between its
/// first `v` and the `+commit` after it.
pub fn solc_version(compiler_version: &str) -> (r: Option<String>)
    ensures
        r matches Some(s) ==> regex_group(solc_version_pattern(), compiler_version@, 1) == Some(s@),
        r is None ==> regex_group(solc_version_pattern(), compiler_version@, 1) is None,
{
    capture_group("v(.*?)\\+commit", compiler_version, 1)
}

/// `s` with each occurrence of `from`, found from left to right without
/// overlap, replaced by `to`.
pub open spec fn replace_all(s: Seq<char>, from: Seq<char>, to: Seq<char>) -> Seq<char>
    recommends
        from.len() > 0,
    decreases s.len(),
{
    if s.len() == 0 || from.len() == 0 {
        s
    } else if from.len() <= s.len() && s.take(from.len() as int) == from {
        to + replace_all(s.skip(from.len() as int), from, to)
    } else {
        seq![s[0]] + replace_all(s.skip(1), from, to)
    }
}

/// Whether `from` stands in `s` at `i`.
fn matches_at(s: &str, i: usize, from: &str) -> (r: bool)
    requires
        i <= s@.len(),
    ensures
        r == (from@.len() <= s@.len() - i && s@.subrange(i as int, i + from@.len()) == from@),
{
    let n = s.unicode_len();
    let m = from.unicode_len();
    if m > n - i {
        return false;
    }
    let mut k: usize = 0;
    while k < m
        invariant
            n == s@.len(),
            m == from@.len(),
            m <= n - i,
            k <= m,
            forall|j: int| 0 <= j < k ==> s@[i + j] == from@[j],
        decreases m - k,
    {
        if s.get_char(i + k) != from.get_char(k) {
            return false;
        }
        k = k + 1;
    }
    assert(s@.subrange(i as int, i + m) =~= from@);
    true
}

/// `s` with each occurrence of the non-empty `from` replaced by `to`.
fn replace_nonempty(s: &str, from: &str, to: &str) -> (r: String)
    requires
        from@.len() > 0,
    ensures
        r@ == replace_all(s@, from@, to@),
{
    let n = s.unicode_len();
    let m = from.unicode_len();
    let mut out = String::from_str("");
    proof {
        reveal_strlit("");
        assert(s@.skip(0) =~= s@);
        assert(out@ + replace_all(s@, from@, to@) =~= replace_all(s@, from@, to@));
    }
    let mut i: usize = 0;
    while i < n
        invariant
            n == s@.len(),
            m == from@.len(),
            m > 0,
            i <= n,
            out@ + replace_all(s@.skip(i as int), from@, to@) == replace_all(s@, from@, to@),
        decreases n - i,
    {
        let ghost rest = s@.skip(i as int);
        if matches_at(s, i, from) {
            proof {
                assert(rest.take(m as int) =~= s@.subrange(i as int, i + m));
                assert(rest.skip(m as int) =~= s@.skip(i + m));
                assert(out@ + to@ + replace_all(s@.skip(i + m), from@, to@) =~= out@
                    + replace_all(rest, from@, to@));
            }
            out = out.concat(to);
            i = i + m;
        } else {
            proof {
                if m <= rest.len() {
                    assert(rest.take(m as int) =~= s@.subrange(i as int, i + m));
                }
                assert(rest.skip(1) =~= s@.skip(i + 1));
                assert(rest[0] == s@[i as int]);
            }
            let c = s.substring_char(i, i + 1);
            proof {
                assert(c@ =~= seq![s@[i as int]]);
                assert(out@ + c@ + replace_all(s@.skip(i + 1), from@, to@) =~= out@
                    + replace_all(rest, from@, to@));
            }
            out = out.concat(c);
            i = i + 1;
        }
    }
    proof {
        assert(s@.skip(n as int) =~= Seq::<char>::empty());
        assert(out@ + Seq::<char>::empty() =~= out@);
    }
    out
}

/// `to` before each character of `s` and after the last one.
pub open spec fn interleave(s: Seq<char>, to: Seq<char>) -> Seq<char>
    decreases s.len(),
{
    if s.len() == 0 {
        to
    } else {
        interleave(s.drop_last(), to) + seq![s.last()] + to
    }
}

/// What `str::replace` makes of `s`: each occurrence of a non-empty `from`
/// replaced by `to`; for an empty `from`, `to` put before every character
/// and at the end.
pub open spec fn spec_replace(s: Seq<char>, from: Seq<char>, to: Seq<char>) -> Seq<char> {
    if from.len() == 0 {
        interleave(s, to)
    } else {
        replace_all(s, from, to)
    }
}

/// `s` with each occurrence of `from` replaced by `to`, as `str::replace`
/// does.
pub fn replace(s: &str, from: &str, to: &str) -> (r: String)
    ensures
        r@ == spec_replace(s@, from@, to@),
{
    if from.unicode_len() > 0 {
        return replace_nonempty(s, from, to);
    }
    let n = s.unicode_len();
    let mut out = String::from_str(to);
    let mut i: usize = 0;
    assert(s@.take(0) =~= Seq::<char>::empty());
    while i < n
        invariant
            n == s@.len(),
            i <= n,
            out@ == interleave(s@.take(i as int), to@),
        decreases n - i,
    {
        let c = s.substring_char(i, i + 1);
        proof {
            assert(c@ =~= seq![s@[i as int]]);
            assert(s@.take(i + 1).drop_last() =~= s@.take(i as int));
            assert(out@ + c@ + to@ =~= interleave(s@.take(i as int), to@) + seq![s@[i as int]] + to@);
        }
        out = out.concat(c).concat(to);
        i = i + 1;
    }
    assert(s@.take(n as int) =~= s@);
    out
}

/// The source text as it goes into the compiler's input: line ends
/// `\r\n` become `\n`, then `{{` becomes `{` and `}}` becomes `}`.
pub open spec fn spec_normalize_source(code: Seq<char>) -> Seq<char> {
    replace_all(
        replace_all(replace_all(code, "\r\n"@, "\n"@), "{{"@, "{"@),
        "}}"@,
        "}"@,
    )
}

/// The source text as it goes into the compiler's input.
pub fn normalize_source(code: &str) -> (r: String)
    ensures
        r@ == spec_normalize_source(code@),
{
    proof {
        reveal_strlit("\r\n");
        reveal_strlit("{{");
        reveal_strlit("}}");
    }
    let a = replace(code, "\r\n", "\n");
    let b = replace(a.as_str(), "{{", "{");
    replace(b.as_str(), "}}", "}")
}

/// The part of `s` before its first `c`; all of `s` where it has none.
pub open spec fn before_first(s: Seq<char>, c: char) -> Seq<char>
    decreases s.len(),
{
    if s.len() == 0 {
        s
    } else if s[0] == c {
        Seq::empty()
    } else {
        seq![s[0]] + before_first(s.skip(1), c)
    }
}

/// The part of `s` after its last `c`; all of `s` where it has none.
pub open spec fn after_last(s: Seq<char>, c: char) -> Seq<char>
    decreases s.len(),
{
    if s.len() == 0 {
        s
    } else if s.last() == c {
        Seq::empty()
    } else {
        after_last(s.drop_last(), c) + seq![s.last()]
    }
}

/// The contract address that a source file is named by: its name up to
/// the first `.`.
pub fn contract_address(file_name: &str) -> (r: String)
    ensures
        r@ == before_first(file_name@, '.'),
{
    let n = file_name.unicode_len();
    let mut i: usize = 0;
    proof {
        assert(file_name@.skip(0) =~= file_name@);
        assert(file_name@.take(0) + file_name@ =~= file_name@);
    }
    while i < n && file_name.get_char(i) != '.'
        invariant
            n == file_name@.len(),
            i <= n,
            before_first(file_name@, '.') == file_name@.take(i as int) + before_first(
                file_name@.skip(i as int),
                '.',
            ),
        decreases n - i,
    {
        proof {
            let rest = file_name@.skip(i as int);
            assert(rest[0] == file_name@[i as int]);
            assert(rest.skip(1) =~= file_name@.skip(i + 1));
            assert(file_name@.take(i as int) + seq![file_name@[i as int]] =~= file_name@.take(i + 1));
            assert(file_name@.take(i as int) + (seq![file_name@[i as int]] + before_first(rest.skip(1), '.'))
                =~= file_name@.take(i + 1) + before_first(rest.skip(1), '.'));
        }
        i = i + 1;
    }
    proof {
        if i == n {
            assert(file_name@.skip(i as int) =~= Seq::<char>::empty());
        } else {
            assert(file_name@.skip(i as int)[0] == '.');
        }
        assert(file_name@.take(i as int) + Seq::<char>::empty() =~= file_name@.take(i as int));
        assert(file_name@.subrange(0, i as int) =~= file_name@.take(i as int));
    }
    String::from_str(file_name.substring_char(0, i))
}

/// The last segment of a `/`-separated path.
pub fn last_segment(path: &str) -> (r: String)
    ensures
        r@ == after_last(path@, '/'),
{
    let n = path.unicode_len();
    let mut i: usize = n;
    proof {
        assert(path@.take(n as int) =~= path@);
        assert(path@.skip(n as int) =~= Seq::<char>::empty());
        assert(after_last(path@, '/') + Seq::<char>::empty() =~= after_last(path@, '/'));
    }
    while i > 0 && path.get_char(i - 1) != '/'
        invariant
            n == path@.len(),
            i <= n,
            after_last(path@, '/') == after_last(path@.take(i as int), '/') + path@.skip(i as int),
        decreases i,
    {
        proof {
            let t = path@.take(i as int);
            assert(t.drop_last() =~= path@.take(i - 1));
            assert(seq![t.last()] + path@.skip(i as int) =~= path@.skip(i - 1));
            assert(after_last(t, '/') == after_last(path@.take(i - 1), '/') + seq![t.last()]);
            assert(after_last(path@.take(i - 1), '/') + seq![t.last()] + path@.skip(i as int)
                =~= after_last(path@.take(i - 1), '/') + path@.skip(i - 1));
        }
        i = i - 1;
    }
    proof {
        if i > 0 {
            let t = path@.take(i as int);
            assert(t.last() == '/');
            assert(Seq::<char>::empty() + path@.skip(i as int) =~= path@.skip(i as int));
        }
        if i == 0 {
            assert(path@.take(0) =~= Seq::<char>::empty());
            assert(Seq::<char>::empty() + path@.skip(0) =~= path@.skip(0));
        }
        assert(path@.skip(i as int) =~= path@.subrange(i as int, n as int));
    }
    String::from_str(path.substring_char(i, n))
}

/// The key of a contract's Yul program: the address, the last segment of
/// the source file's path and the contract's name, separated by `:`.
pub open spec fn spec_yul_key(address: Seq<char>, file: Seq<char>, contract: Seq<char>) -> Seq<char> {
    address + ":"@ + after_last(file, '/') + ":"@ + contract
}

/// The key of a contract's Yul program.
pub fn yul_key(address: &str, file: &str, contract: &str) -> (r: String)
    ensures
        r@ == spec_yul_key(address@, file@, contract@),
{
    let seg = last_segment(file);
    String::from_str(address).concat(":").concat(seg.as_str()).concat(":").concat(contract)
}

/// A contract of the compiler's output: its name and its Yul program, where
/// the output holds one as text.
#[derive(Debug)]
pub struct ContractOutput {
    pub name: String,
    pub ir: Option<String>,
}

/// A source file of the compiler's output: its path and its contracts, in
/// the output's order.
#[derive(Debug)]
pub struct FileOutput {
    pub name: String,
    pub contracts: Vec<ContractOutput>,
}

/// The keyed Yul programs of a file's contracts, in order: those of the
/// contracts with a non-empty program.
pub open spec fn contracts_yul_entries(
    address: Seq<char>,
    file: Seq<char>,
    cs: Seq<ContractOutput>,
) -> Seq<(Seq<char>, Seq<char>)>
    decreases cs.len(),
{
    if cs.len() == 0 {
        Seq::empty()
    } else {
        let rest = contracts_yul_entries(address, file, cs.drop_last());
        match cs.last().ir {
            Some(ir) => if ir@.len() > 0 {
                rest.push((spec_yul_key(address, file, cs.last().name@), ir@))
            } else {
                rest
            },
            None => rest,
        }
    }
}

/// The keyed Yul programs of all files' contracts, in order.
pub open spec fn files_yul_entries(address: Seq<char>, files: Seq<FileOutput>) -> Seq<(Seq<char>, Seq<char>)>
    decreases files.len(),
{
    if files.len() == 0 {
        Seq::empty()
    } else {
        files_yul_entries(address, files.drop_last()) + contracts_yul_entries(
            address,
            files.last().name@,
            files.last().contracts@,
        )
    }
}

/// The map that inserting the entries in order gives: a later entry
/// replaces an earlier one of the same key.
pub open spec fn entries_map(es: Seq<(Seq<char>, Seq<char>)>) -> Map<Seq<char>, Seq<char>>
    decreases es.len(),
{
    if es.len() == 0 {
        Map::empty()
    } else {
        entries_map(es.drop_last()).insert(es.last().0, es.last().1)
    }
}

/// Whether the pairs hold each key once and hold exactly the map.
pub open spec fn pairs_are_map(v: Seq<(String, String)>, m: Map<Seq<char>, Seq<char>>) -> bool {
    &&& forall|i: int, j: int| 0 <= i < j < v.len() ==> v[i].0@ != v[j].0@
    &&& forall|i: int| 0 <= i < v.len() ==> m.contains_key(#[trigger] v[i].0@) && m[v[i].0@] == v[i].1@
    &&& forall|k: Seq<char>| #[trigger] m.contains_key(k) ==> exists|i: int| 0 <= i < v.len() && v[i].0@ == k
}

/// Sets the pair of `key` to `value`, adding it where it is missing.
fn upsert(v: &mut Vec<(String, String)>, key: String, value: String)
    ensures
        forall|m: Map<Seq<char>, Seq<char>>| pairs_are_map(old(v)@, m) ==> pairs_are_map(
            final(v)@,
            m.insert(key@, value@),
        ),
{
    let n = v.len();
    let mut i: usize = 0;
    while i < n
        invariant
            n == v@.len(),
            i <= n,
            v@ == old(v)@,
            forall|j: int| 0 <= j < i ==> v@[j].0@ != key@,
        decreases n - i,
    {
        if str_eq(v[i].0.as_str(), key.as_str()) {
            let ghost before = v@;
            let k = v[i].0.clone();
            v.set(i, (k, value));
            proof {
                assert forall|m: Map<Seq<char>, Seq<char>>| pairs_are_map(before, m) implies pairs_are_map(
                    v@,
                    m.insert(key@, value@),
                ) by {
                    let m2 = m.insert(key@, value@);
                    assert forall|k2: Seq<char>| #[trigger] m2.contains_key(k2) implies exists|j: int|
                        0 <= j < v@.len() && v@[j].0@ == k2 by {
                        if k2 == key@ {
                            assert(v@[i as int].0@ == k2);
                        } else {
                            assert(m.contains_key(k2));
                            let j = choose|j: int| 0 <= j < before.len() && before[j].0@ == k2;
                            assert(v@[j].0@ == k2);
                        }
                    }
                    assert forall|j: int| 0 <= j < v@.len() implies m2.contains_key(#[trigger] v@[j].0@)
                        && m2[v@[j].0@] == v@[j].1@ by {
                        if j != i {
                            assert(before[j] == v@[j]);
                            assert(before[j].0@ != before[i as int].0@);
                        }
                    }
                }
            }
            return;
        }
        i = i + 1;
    }
    let ghost before = v@;
    v.push((key, value));
    proof {
        assert forall|m: Map<Seq<char>, Seq<char>>| pairs_are_map(before, m) implies pairs_are_map(
            v@,
            m.insert(key@, value@),
        ) by {
            let m2 = m.insert(key@, value@);
            assert forall|k2: Seq<char>| #[trigger] m2.contains_key(k2) implies exists|j: int|
                0 <= j < v@.len() && v@[j].0@ == k2 by {
                if k2 == key@ {
                    assert(v@[n as int].0@ == k2);
                } else {
                    assert(m.contains_key(k2));
                    let j = choose|j: int| 0 <= j < before.len() && before[j].0@ == k2;
                    assert(v@[j].0@ == k2);
                }
            }
            assert forall|j: int| 0 <= j < v@.len() implies m2.contains_key(#[trigger] v@[j].0@) && m2[v@[j].0@]
                == v@[j].1@ by {
                if j < n {
                    assert(before[j] == v@[j]);
                }
            }
        }
    }
}

/// The Yul programs of the compiler's output for the contract at
/// `address`, each under its key: for each contract with a non-empty
/// program, the key of its address, file and name; where two contracts
/// have one key, the later one's program.
pub fn get_yul(address: &str, files: &Vec<FileOutput>) -> (r: Vec<(String, String)>)
    ensures
        pairs_are_map(r@, entries_map(files_yul_entries(address@, files@))),
{
    let mut r: Vec<(String, String)> = Vec::new();
    let nf = files.len();
    let mut fi: usize = 0;
    proof {
        assert(pairs_are_map(r@, Map::empty()));
        assert(files@.take(0) =~= Seq::<FileOutput>::empty());
    }
    while fi < nf
        invariant
            nf == files@.len(),
            fi <= nf,
            pairs_are_map(r@, entries_map(files_yul_entries(address@, files@.take(fi as int)))),
        decreases nf - fi,
    {
        let file = &files[fi];
        let ghost base = files_yul_entries(address@, files@.take(fi as int));
        let nc = file.contracts.len();
        let mut ci: usize = 0;
        proof {
            assert(file.contracts@.take(0) =~= Seq::<ContractOutput>::empty());
            assert(base + Seq::empty() =~= base);
        }
        while ci < nc
            invariant
                nf == files@.len(),
                fi < nf,
                file == &files@[fi as int],
                nc == file.contracts@.len(),
                ci <= nc,
                base == files_yul_entries(address@, files@.take(fi as int)),
                pairs_are_map(
                    r@,
                    entries_map(base + contracts_yul_entries(address@, file.name@, file.contracts@.take(ci as int))),
                ),
            decreases nc - ci,
        {
            let c = &file.contracts[ci];
            let ghost prev = contracts_yul_entries(address@, file.name@, file.contracts@.take(ci as int));
            proof {
                assert(file.contracts@.take(ci + 1).drop_last() =~= file.contracts@.take(ci as int));
            }
            match &c.ir {
                Some(ir) => {
                    if ir.unicode_len() > 0 {
                        let key = yul_key(address, file.name.as_str(), c.name.as_str());
                        let ghost m = entries_map(base + prev);
                        upsert(&mut r, key, ir.clone());
                        proof {
                            let e = (spec_yul_key(address@, file.name@, c.name@), ir@);
                            assert(base + prev.push(e) =~= (base + prev).push(e));
                            assert((base + prev).push(e).drop_last() =~= base + prev);
                        }
                    }
                },
                None => {},
            }
            ci = ci + 1;
        }
        proof {
            assert(file.contracts@.take(nc as int) =~= file.contracts@);
            assert(files@.take(fi + 1).drop_last() =~= files@.take(fi as int));
        }
        fi = fi + 1;
    }
    proof {
        assert(files@.take(nf as int) =~= files@);
    }
    r
}

} // verus!
