//! Shared text helpers: moving between `String`/`&str` and `Vec<char>`,
//! whitespace trimming, and splitting text into lines.
use vstd::prelude::*;
use vstd::string::StrSliceExecFns;
use vstd::string::StringExecFns;

verus! {

/// Relies on `core::iter::Iterator::collect` for `String` from chars:
/// the collected string holds exactly the characters of the vector, in order.
#[verifier::external_body]
pub fn chars_to_string(v: &Vec<char>) -> (r: String)
    ensures
        r@ == v@,
{
    v.iter().collect()
}

/// The characters of a string slice, as an indexable vector.
pub fn str_to_chars(s: &str) -> (r: Vec<char>)
    ensures
        r@ == s@,
{
    let n = s.unicode_len();
    let mut r: Vec<char> = Vec::new();
    let mut i: usize = 0;
    while i < n
        invariant
            n == s@.len(),
            i <= n,
            r@ == s@.take(i as int),
        decreases n - i,
    {
        r.push(s.get_char(i));
        i = i + 1;
        proof {
            assert(r@ =~= s@.take(i as int));
        }
    }
    proof {
        assert(s@.take(n as int) =~= s@);
    }
    r
}

/// Index of the first occurrence of `c` in `s`.
pub open spec fn find_char(s: Seq<char>, c: char) -> Option<int>
    decreases s.len(),
{
    if s.len() == 0 {
        None
    } else if s[0] == c {
        Some(0)
    } else {
        match find_char(s.skip(1), c) {
            None => None,
            Some(i) => Some(i + 1),
        }
    }
}

/// What a `find_char` answer means for the characters of `s`.
pub proof fn lemma_find_char_props(s: Seq<char>, c: char)
    ensures
        match find_char(s, c) {
            Some(i) => 0 <= i < s.len() && s[i] == c && (forall|j: int| 0 <= j < i ==> s[j] != c),
            None => forall|j: int| 0 <= j < s.len() ==> s[j] != c,
        },
    decreases s.len(),
{
    if s.len() > 0 && s[0] != c {
        lemma_find_char_props(s.skip(1), c);
        assert(forall|j: int| 1 <= j < s.len() ==> #[trigger] s[j] == s.skip(1)[j - 1]);
    }
}

/// `find_char` answers the first index whose character is `c`.
pub proof fn lemma_find_char_at(s: Seq<char>, c: char, i: int)
    requires
        0 <= i < s.len(),
        s[i] == c,
        forall|j: int| 0 <= j < i ==> s[j] != c,
    ensures
        find_char(s, c) == Some(i),
    decreases s.len(),
{
    if i > 0 {
        lemma_find_char_at(s.skip(1), c, i - 1);
    }
}

/// Searching a concatenation whose first part does not hold `c` searches the
/// second part.
pub proof fn lemma_find_char_clean_concat(a: Seq<char>, b: Seq<char>, c: char)
    requires
        forall|j: int| 0 <= j < a.len() ==> a[j] != c,
    ensures
        find_char(a + b, c) == match find_char(b, c) {
            None => None::<int>,
            Some(i) => Some(i + a.len()),
        },
{
    lemma_find_char_props(b, c);
    match find_char(b, c) {
        None => {
            lemma_find_char_props(a + b, c);
            if find_char(a + b, c) is Some {
                let k = find_char(a + b, c)->0;
                assert((a + b)[k] == c);
                if k < a.len() {
                    assert(a[k] == c);
                } else {
                    assert(b[k - a.len()] == c);
                }
                assert(false);
            }
        },
        Some(i) => {
            assert((a + b)[i + a.len()] == c);
            assert forall|j: int| 0 <= j < i + a.len() implies (a + b)[j] != c by {
                if j >= a.len() {
                    assert(b[j - a.len()] != c);
                }
            }
            lemma_find_char_at(a + b, c, i + a.len());
        },
    }
}

/// Index of the first occurrence of `c` in `v`, as executable code.
pub fn find_char_vec(v: &Vec<char>, c: char) -> (r: Option<usize>)
    ensures
        match r {
            Some(i) => find_char(v@, c) == Some(i as int),
            None => find_char(v@, c) is None,
        },
{
    let n = v.len();
    let mut i: usize = 0;
    while i < n
        invariant
            n == v@.len(),
            i <= n,
            forall|j: int| 0 <= j < i ==> v@[j] != c,
        decreases n - i,
    {
        if v[i] == c {
            proof {
                lemma_find_char_at(v@, c, i as int);
            }
            return Some(i);
        }
        i = i + 1;
    }
    proof {
        lemma_find_char_props(v@, c);
    }
    None
}

/// A copy of the characters of `v` between `lo` and `hi`.
pub fn subvec(v: &Vec<char>, lo: usize, hi: usize) -> (r: Vec<char>)
    requires
        lo <= hi <= v@.len(),
    ensures
        r@ == v@.subrange(lo as int, hi as int),
{
    let mut r: Vec<char> = Vec::new();
    let mut i: usize = lo;
    while i < hi
        invariant
            lo <= i <= hi <= v@.len(),
            r@ == v@.subrange(lo as int, i as int),
        decreases hi - i,
    {
        r.push(v[i]);
        i = i + 1;
        proof {
            assert(r@ =~= v@.subrange(lo as int, i as int));
        }
    }
    r
}

/// The whitespace characters that surrounding text may carry.
pub open spec fn is_ascii_space(c: char) -> bool {
    c == ' ' || c == '\t' || c == '\n' || c == '\r'
}

/// `s` without leading whitespace.
pub open spec fn trim_left_spec(s: Seq<char>) -> Seq<char>
    decreases s.len(),
{
    if s.len() > 0 && is_ascii_space(s[0]) {
        trim_left_spec(s.skip(1))
    } else {
        s
    }
}

/// `s` without trailing whitespace.
pub open spec fn trim_right_spec(s: Seq<char>) -> Seq<char>
    decreases s.len(),
{
    if s.len() > 0 && is_ascii_space(s.last()) {
        trim_right_spec(s.drop_last())
    } else {
        s
    }
}

/// `s` without leading or trailing whitespace.
pub open spec fn trim_spec(s: Seq<char>) -> Seq<char> {
    trim_right_spec(trim_left_spec(s))
}

/// A copy of `v` with leading and trailing whitespace removed.
#[verifier::rlimit(30)]
pub fn trim_chars(v: &Vec<char>) -> (r: Vec<char>)
    ensures
        r@ == trim_spec(v@),
{
    let n = v.len();
    let mut lo: usize = 0;
    proof {
        assert(v@.skip(0) =~= v@);
    }
    while lo < n && is_space_exec(v[lo])
        invariant
            n == v@.len(),
            lo <= n,
            trim_left_spec(v@) == trim_left_spec(v@.skip(lo as int)),
        decreases n - lo,
    {
        proof {
            assert(v@.skip(lo as int).skip(1) =~= v@.skip(lo as int + 1));
        }
        lo = lo + 1;
    }
    proof {
        assert(trim_left_spec(v@) =~= v@.skip(lo as int));
    }
    let mut hi: usize = n;
    while hi > lo && is_space_exec(v[hi - 1])
        invariant
            lo <= hi <= n,
            n == v@.len(),
            trim_left_spec(v@) == v@.skip(lo as int),
            trim_right_spec(v@.skip(lo as int)) == trim_right_spec(v@.subrange(lo as int, hi as int)),
        decreases hi,
    {
        proof {
            assert(v@.subrange(lo as int, hi as int).drop_last() =~= v@.subrange(
                lo as int,
                hi as int - 1,
            ));
        }
        hi = hi - 1;
    }
    proof {
        assert(trim_right_spec(v@.subrange(lo as int, hi as int)) =~= v@.subrange(
            lo as int,
            hi as int,
        ));
    }
    subvec(v, lo, hi)
}

/// The pieces of `s` between its newline characters; a trailing newline
/// yields a final empty piece.
pub open spec fn split_newlines(s: Seq<char>) -> Seq<Seq<char>>
    decreases s.len(),
        via split_newlines_decreases
{
    match find_char(s, '\n') {
        None => seq![s],
        Some(i) => seq![s.take(i)] + split_newlines(s.skip(i + 1)),
    }
}

#[via_fn]
proof fn split_newlines_decreases(s: Seq<char>) {
    lemma_find_char_props(s, '\n');
}

/// The pieces joined back with single newlines.
pub open spec fn join_newlines(ls: Seq<Seq<char>>) -> Seq<char>
    decreases ls.len(),
{
    if ls.len() == 0 {
        Seq::empty()
    } else if ls.len() == 1 {
        ls[0]
    } else {
        ls[0] + seq!['\n'] + join_newlines(ls.skip(1))
    }
}

/// A line without its trailing carriage return, if it carries one.
pub open spec fn strip_cr(l: Seq<char>) -> Seq<char> {
    if l.len() > 0 && l.last() == '\r' {
        l.drop_last()
    } else {
        l
    }
}

/// The lines of `s`: split at newlines, dropping one final empty piece and
/// each piece's trailing carriage return.
pub open spec fn lines_spec(s: Seq<char>) -> Seq<Seq<char>> {
    if s.len() == 0 {
        Seq::empty()
    } else {
        let ps = split_newlines(s);
        let kept = if ps.last().len() == 0 {
            ps.drop_last()
        } else {
            ps
        };
        kept.map_values(|l: Seq<char>| strip_cr(l))
    }
}

/// No piece holds a newline of its own.
pub open spec fn pieces_clean(ls: Seq<Seq<char>>) -> bool {
    forall|i: int|
        0 <= i < ls.len() ==> forall|j: int|
            0 <= j < (#[trigger] ls[i]).len() ==> #[trigger] ls[i][j] != '\n'
}

/// Law: splitting at newlines undoes joining with newlines, for pieces that
/// hold no newline themselves.
pub proof fn lemma_split_join(ls: Seq<Seq<char>>)
    requires
        ls.len() >= 1,
        pieces_clean(ls),
    ensures
        split_newlines(join_newlines(ls)) == ls,
    decreases ls.len(),
{
    if ls.len() == 1 {
        lemma_find_char_props(ls[0], '\n');
        if find_char(ls[0], '\n') is Some {
            assert(false);
        }
        assert(split_newlines(join_newlines(ls)) =~= ls);
    } else {
        let a = ls[0];
        let b = seq!['\n'] + join_newlines(ls.skip(1));
        assert(join_newlines(ls) == a + b);
        lemma_find_char_clean_concat(a, b, '\n');
        assert(find_char(b, '\n') == Some(0int));
        assert(find_char(a + b, '\n') == Some(a.len() as int));
        assert((a + b).take(a.len() as int) =~= a);
        assert((a + b).skip(a.len() as int + 1) =~= join_newlines(ls.skip(1)));
        assert(pieces_clean(ls.skip(1)));
        lemma_split_join(ls.skip(1));
        assert(split_newlines(join_newlines(ls)) =~= ls);
    }
}

/// No piece ends in a carriage return, and the final piece is not empty.
pub open spec fn pieces_plain(ls: Seq<Seq<char>>) -> bool {
    &&& (forall|i: int|
        0 <= i < ls.len() ==> ((#[trigger] ls[i]).len() == 0 || ls[i].last() != '\r'))
    &&& ls.len() > 0 ==> ls.last().len() > 0
}

/// Law: reading lines undoes joining with newlines, for plain pieces.
pub proof fn lemma_lines_of_join(ls: Seq<Seq<char>>)
    requires
        ls.len() >= 1,
        pieces_clean(ls),
        pieces_plain(ls),
    ensures
        lines_spec(join_newlines(ls)) == ls,
{
    lemma_split_join(ls);
    let s = join_newlines(ls);
    assert(s.len() > 0) by {
        if ls.len() == 1 {
            assert(s == ls[0]);
            assert(ls.last().len() > 0);
        } else {
            assert(s.len() >= ls[0].len() + 1 + join_newlines(ls.skip(1)).len());
        }
    }
    let ps = split_newlines(s);
    assert(ps == ls);
    assert(ps.last().len() > 0);
    assert(lines_spec(s) == ps.map_values(|l: Seq<char>| strip_cr(l)));
    assert forall|i: int| 0 <= i < ls.len() implies ls.map_values(|l: Seq<char>| strip_cr(l))[i]
        == ls[i] by {
        assert(strip_cr(ls[i]) == ls[i]);
    }
    assert(lines_spec(s) =~= ls);
}

/// Are two string slices the same text?
pub fn str_eq(a: &str, b: &str) -> (r: bool)
    ensures
        r == (a@ == b@),
{
    let n = a.unicode_len();
    let m = b.unicode_len();
    if n != m {
        return false;
    }
    let mut i: usize = 0;
    while i < n
        invariant
            n == a@.len(),
            n == b@.len(),
            i <= n,
            forall|j: int| 0 <= j < i ==> a@[j] == b@[j],
        decreases n - i,
    {
        if a.get_char(i) != b.get_char(i) {
            return false;
        }
        i = i + 1;
    }
    proof {
        assert(a@ =~= b@);
    }
    true
}

/// The raw newline-separated pieces of `v`, each as a string.
pub fn split_newlines_vec(v: &Vec<char>) -> (r: Vec<String>)
    ensures
        r@.len() == split_newlines(v@).len(),
        forall|i: int| 0 <= i < r@.len() ==> (#[trigger] r@[i])@ == split_newlines(v@)[i],
{
    let mut pieces: Vec<String> = Vec::new();
    let mut pos: usize = 0;
    let n = v.len();
    proof {
        assert(v@.skip(0) =~= v@);
    }
    loop
        invariant_except_break
            pos <= n,
            n == v@.len(),
            split_newlines(v@).len() == pieces@.len() + split_newlines(v@.skip(pos as int)).len(),
            forall|i: int|
                0 <= i < pieces@.len() ==> (#[trigger] pieces@[i])@ == split_newlines(v@)[i],
            forall|i: int|
                0 <= i < split_newlines(v@.skip(pos as int)).len() ==> #[trigger] split_newlines(
                    v@.skip(pos as int),
                )[i] == split_newlines(v@)[pieces@.len() + i],
        ensures
            pieces@.len() == split_newlines(v@).len(),
            forall|i: int|
                0 <= i < pieces@.len() ==> (#[trigger] pieces@[i])@ == split_newlines(v@)[i],
        decreases n - pos,
    {
        let rest = subvec(v, pos, n);
        let ghost old_pieces = pieces@;
        let ghost rest_split = split_newlines(rest@);
        match find_char_vec(&rest, '\n') {
            None => {
                pieces.push(chars_to_string(&rest));
                proof {
                    assert(rest_split =~= seq![rest@]);
                    assert(rest_split[0] == rest@);
                    assert(split_newlines(v@)[old_pieces.len() as int] == rest@);
                }
                break ;
            },
            Some(j) => {
                proof {
                    lemma_find_char_props(rest@, '\n');
                }
                let piece = subvec(&rest, 0, j);
                pieces.push(chars_to_string(&piece));
                proof {
                    let tail = split_newlines(rest@.skip(j as int + 1));
                    assert(rest_split == seq![rest@.take(j as int)] + tail);
                    assert(piece@ =~= rest@.take(j as int));
                    assert(rest_split[0] == rest@.take(j as int));
                    assert(split_newlines(v@)[old_pieces.len() as int] == piece@);
                    assert(rest@.skip(j as int + 1) =~= v@.skip(pos as int + j + 1));
                    assert forall|k: int| 0 <= k < tail.len() implies #[trigger] tail[k]
                        == split_newlines(v@)[old_pieces.len() + 1 + k] by {
                        assert(rest_split[k + 1] == tail[k]);
                    }
                }
                pos = pos + j + 1;
            },
        }
    }
    pieces
}

/// The lines of a string slice, split at newlines, without a final empty
/// line or trailing carriage returns.
pub fn split_lines(s: &str) -> (r: Vec<String>)
    ensures
        r@.len() == lines_spec(s@).len(),
        forall|i: int| 0 <= i < r@.len() ==> (#[trigger] r@[i])@ == lines_spec(s@)[i],
{
    let chars = str_to_chars(s);
    lines_of_chars(&chars)
}

/// The lines of a character vector.
pub fn lines_of_chars(v: &Vec<char>) -> (r: Vec<String>)
    ensures
        r@.len() == lines_spec(v@).len(),
        forall|i: int| 0 <= i < r@.len() ==> (#[trigger] r@[i])@ == lines_spec(v@)[i],
{
    if v.len() == 0 {
        return Vec::new();
    }
    let mut pieces = split_newlines_vec(v);
    let ghost raw = split_newlines(v@);
    proof {
        lemma_find_char_props(v@, '\n');
        assert(raw.len() >= 1);
    }
    let last_index = pieces.len() - 1;
    let keep_last = !pieces[last_index].as_str().is_empty();
    if !keep_last {
        pieces.pop();
    }
    let ghost kept = if raw.last().len() == 0 {
        raw.drop_last()
    } else {
        raw
    };
    proof {
        assert(pieces@.len() == kept.len());
        assert(forall|i: int| 0 <= i < pieces@.len() ==> (#[trigger] pieces@[i])@ == kept[i]);
    }
    let n = pieces.len();
    let mut out: Vec<String> = Vec::new();
    let mut i: usize = 0;
    while i < n
        invariant
            n == pieces@.len(),
            n == kept.len(),
            i <= n,
            forall|k: int| 0 <= k < n ==> (#[trigger] pieces@[k])@ == kept[k],
            out@.len() == i,
            forall|k: int| 0 <= k < i ==> (#[trigger] out@[k])@ == strip_cr(kept[k]),
        decreases n - i,
    {
        let piece = &pieces[i];
        let len = piece.as_str().unicode_len();
        if len > 0 && piece.as_str().get_char(len - 1) == '\r' {
            let stripped = piece.as_str().substring_char(0, len - 1);
            proof {
                assert(stripped@ =~= strip_cr(kept[i as int]));
            }
            out.push(stripped.to_owned());
        } else {
            proof {
                assert(piece@ =~= strip_cr(kept[i as int]));
            }
            out.push(piece.clone());
        }
        i = i + 1;
    }
    proof {
        assert(lines_spec(v@) == kept.map_values(|l: Seq<char>| strip_cr(l)));
        assert(forall|k: int|
            0 <= k < kept.len() ==> kept.map_values(|l: Seq<char>| strip_cr(l))[k] == strip_cr(
                kept[k],
            ));
    }
    out
}

/// The strings joined with single newlines.
pub fn join_lines(v: &Vec<String>) -> (r: String)
    ensures
        r@ == join_newlines(v@.map_values(|l: String| l@)),
{
    let ghost ls = v@.map_values(|l: String| l@);
    let n = v.len();
    let mut s = String::new();
    let mut i: usize = 0;
    proof {
        assert(ls.skip(0) =~= ls);
    }
    while i < n
        invariant
            n == v@.len(),
            ls == v@.map_values(|l: String| l@),
            ls.len() == n,
            i <= n,
            join_newlines(ls) == s@ + (if i == 0 {
                join_newlines(ls)
            } else if i < n {
                seq!['\n'] + join_newlines(ls.skip(i as int))
            } else {
                Seq::<char>::empty()
            }),
            i == 0 ==> s@ =~= Seq::<char>::empty(),
        decreases n - i,
    {
        if i == 0 {
            s = v[i].clone();
        } else {
            s.append("\n");
            s.append(v[i].as_str());
        }
        proof {
            reveal_strlit("\n");
            assert("\n"@ =~= seq!['\n']);
            let rest = ls.skip(i as int);
            assert(rest[0] == ls[i as int]);
            assert(rest.skip(1) =~= ls.skip(i as int + 1));
            if i + 1 < n {
                assert(join_newlines(rest) == rest[0] + seq!['\n'] + join_newlines(rest.skip(1)));
            }
        }
        i = i + 1;
    }
    proof {
        if n == 0 {
            assert(s@ =~= join_newlines(ls));
        }
    }
    s
}

/// Index of the first line equal to `target`.
pub open spec fn find_line(ls: Seq<Seq<char>>, target: Seq<char>) -> Option<int>
    decreases ls.len(),
{
    if ls.len() == 0 {
        None
    } else if ls[0] == target {
        Some(0)
    } else {
        match find_line(ls.skip(1), target) {
            None => None,
            Some(i) => Some(i + 1),
        }
    }
}

/// What a `find_line` answer means for the lines of `ls`.
pub proof fn lemma_find_line_props(ls: Seq<Seq<char>>, target: Seq<char>)
    ensures
        match find_line(ls, target) {
            Some(i) => 0 <= i < ls.len() && ls[i] == target && (forall|j: int|
                0 <= j < i ==> ls[j] != target),
            None => forall|j: int| 0 <= j < ls.len() ==> ls[j] != target,
        },
    decreases ls.len(),
{
    if ls.len() > 0 && ls[0] != target {
        lemma_find_line_props(ls.skip(1), target);
        assert(forall|j: int| 1 <= j < ls.len() ==> #[trigger] ls[j] == ls.skip(1)[j - 1]);
    }
}

/// `find_line` answers the first index whose line is `target`.
pub proof fn lemma_find_line_at(ls: Seq<Seq<char>>, target: Seq<char>, i: int)
    requires
        0 <= i < ls.len(),
        ls[i] == target,
        forall|j: int| 0 <= j < i ==> ls[j] != target,
    ensures
        find_line(ls, target) == Some(i),
    decreases ls.len(),
{
    if i > 0 {
        lemma_find_line_at(ls.skip(1), target, i - 1);
    }
}

/// Index of the first element of `lines` equal to `target`, as executable
/// code.
pub fn find_line_vec(lines: &Vec<String>, target: &str) -> (r: Option<usize>)
    ensures
        match r {
            Some(i) => find_line(lines@.map_values(|l: String| l@), target@) == Some(i as int),
            None => find_line(lines@.map_values(|l: String| l@), target@) is None,
        },
{
    let ghost ls = lines@.map_values(|l: String| l@);
    let n = lines.len();
    let mut i: usize = 0;
    while i < n
        invariant
            n == lines@.len(),
            ls == lines@.map_values(|l: String| l@),
            i <= n,
            forall|j: int| 0 <= j < i ==> ls[j] != target@,
        decreases n - i,
    {
        if str_eq(lines[i].as_str(), target) {
            proof {
                lemma_find_line_at(ls, target@, i as int);
            }
            return Some(i);
        }
        i = i + 1;
    }
    proof {
        lemma_find_line_props(ls, target@);
    }
    None
}

/// Whitespace test as executable code.
pub fn is_space_exec(c: char) -> (b: bool)
    ensures
        b == is_ascii_space(c),
{
    c == ' ' || c == '\t' || c == '\n' || c == '\r'
}

} // verus!
