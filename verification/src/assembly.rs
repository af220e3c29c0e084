use vstd::prelude::*;

verus! {

// MODULE PATHS
// ================================================================================================

/// Whether `s` holds the delimiter `::` at positions `i` and `i + 1`.
pub open spec fn delim_at(s: Seq<char>, i: int) -> bool {
    0 <= i && i + 1 < s.len() && s[i] == ':' && s[i + 1] == ':'
}

/// Where the last part of `s` starts when `s` is split at `::` from left to right, the scan
/// being at `i` and the current part starting at `start`.
pub open spec fn last_part_start(s: Seq<char>, start: int, i: int) -> int
    decreases s.len() - i,
{
    if i < 0 || i + 1 >= s.len() {
        start
    } else if delim_at(s, i) {
        last_part_start(s, i + 2, i + 2)
    } else {
        last_part_start(s, start, i + 1)
    }
}

/// The last part of a module path split at `::`: `u256` for `std::math::u256`, the whole path
/// when it holds no delimiter.
pub open spec fn last_part(s: Seq<char>) -> Seq<char> {
    s.subrange(last_part_start(s, 0, 0), s.len() as int)
}

proof fn lemma_last_part_start_bounds(s: Seq<char>, start: int, i: int)
    requires
        0 <= start <= i <= s.len(),
    ensures
        start <= last_part_start(s, start, i) <= s.len(),
    decreases s.len() - i,
{
    if i + 1 >= s.len() {
    } else if delim_at(s, i) {
        lemma_last_part_start_bounds(s, i + 2, i + 2);
    } else {
        lemma_last_part_start_bounds(s, start, i + 1);
    }
}

/// `s` holds no `::` delimiter.
pub open spec fn free_of_delim(s: Seq<char>) -> bool {
    forall|i: int| !#[trigger] delim_at(s, i)
}

proof fn lemma_scan_shape(s: Seq<char>, start: int, i: int)
    requires
        0 <= start <= i <= s.len(),
        forall|j: int| start <= j < i ==> !#[trigger] delim_at(s, j),
        start == 0 || (start >= 2 && s[start - 2] == ':' && s[start - 1] == ':'),
    ensures
        ({
            let r = last_part_start(s, start, i);
            &&& start <= r <= s.len()
            &&& forall|j: int| r <= j < s.len() ==> !#[trigger] delim_at(s, j)
            &&& r == 0 || (r >= 2 && s[r - 2] == ':' && s[r - 1] == ':')
        }),
    decreases s.len() - i,
{
    if i + 1 >= s.len() {
        let r = last_part_start(s, start, i);
        assert forall|j: int| r <= j < s.len() implies !#[trigger] delim_at(s, j) by {
            if j >= i {
                assert(!(j + 1 < s.len()));
            }
        }
    } else if delim_at(s, i) {
        lemma_scan_shape(s, i + 2, i + 2);
    } else {
        lemma_scan_shape(s, start, i + 1);
    }
}

/// The label of a path holds no `::`, and the path is the label preceded by nothing or by a
/// prefix that ends in `::`.
pub proof fn law_label_is_last_part(path: Seq<char>)
    ensures
        free_of_delim(last_part(path)),
        path.len() >= last_part(path).len(),
        path.subrange(path.len() - last_part(path).len(), path.len() as int) == last_part(path),
        ({
            let n = path.len() - last_part(path).len();
            n == 0 || (n >= 2 && path[n - 2] == ':' && path[n - 1] == ':')
        }),
{
    lemma_scan_shape(path, 0, 0);
    let r = last_part_start(path, 0, 0);
    let lp = last_part(path);
    assert forall|i: int| !#[trigger] delim_at(lp, i) by {
        if delim_at(lp, i) {
            assert(delim_at(path, r + i));
        }
    }
}

proof fn lemma_scan_no_delim(s: Seq<char>, start: int, i: int)
    requires
        0 <= i,
        forall|j: int| i <= j ==> !#[trigger] delim_at(s, j),
    ensures
        last_part_start(s, start, i) == start,
    decreases s.len() - i,
{
    if i + 1 < s.len() {
        assert(!delim_at(s, i));
        lemma_scan_no_delim(s, start, i + 1);
    }
}

proof fn lemma_scan_reaches(a: Seq<char>, b: Seq<char>, start: int, i: int)
    requires
        0 <= i <= a.len(),
        a.len() == 0 || a.last() != ':',
        free_of_delim(b),
    ensures
        last_part_start(a + seq![':', ':'] + b, start, i) == a.len() + 2,
    decreases a.len() - i,
{
    let s = a + seq![':', ':'] + b;
    if i == a.len() {
        assert(delim_at(s, i));
        assert forall|j: int| a.len() + 2 <= j implies !#[trigger] delim_at(s, j) by {
            if delim_at(s, j) {
                assert(delim_at(b, j - a.len() - 2));
            }
        }
        lemma_scan_no_delim(s, a.len() + 2int, a.len() + 2int);
    } else if delim_at(s, i) {
        assert(s[i + 1] == ':');
        if i + 1 == a.len() {
            assert(s[i] == a.last());
        }
        lemma_scan_reaches(a, b, i + 2, i + 2);
    } else {
        lemma_scan_reaches(a, b, start, i + 1);
    }
}

/// A module path `a::b`, whose last part `b` holds no `::` and whose prefix `a` does not end in
/// `:`, is labelled `b`: the label is what follows the last delimiter.
pub proof fn law_label_after_last_delimiter(a: Seq<char>, b: Seq<char>)
    requires
        a.len() == 0 || a.last() != ':',
        free_of_delim(b),
    ensures
        last_part(a + seq![':', ':'] + b) == b,
{
    let s = a + seq![':', ':'] + b;
    lemma_scan_reaches(a, b, 0, 0);
    assert(s.subrange(a.len() + 2int, s.len() as int) =~= b);
}

/// A path with no `::` is its own label.
pub proof fn law_label_of_plain_name(path: Seq<char>)
    requires
        free_of_delim(path),
    ensures
        last_part(path) == path,
{
    lemma_scan_no_delim(path, 0, 0);
    assert(path.subrange(0, path.len() as int) =~= path);
}

/// The label under which the procedures of the module at `path` are imported: the last
/// part of the path, so that `u256::add` names `add` of `std::math::u256`.
pub fn module_label(path: &str) -> (r: &str)
    ensures
        r@ == last_part(path@),
{
    let n = path.unicode_len();
    let mut start: usize = 0;
    let mut i: usize = 0;
    while n > 0 && i < n - 1
        invariant
            n == path@.len(),
            start <= i <= n,
            last_part_start(path@, start as int, i as int) == last_part_start(
                path@,
                0,
                0,
            ),
        decreases n - i,
    {
        if path.get_char(i) == ':' && path.get_char(i + 1) == ':' {
            start = i + 2;
            i = i + 2;
        } else {
            i = i + 1;
        }
    }
    proof {
        lemma_last_part_start_bounds(path@, 0, 0);
    }
    path.substring_char(start, n)
}

// DEPENDENCY CHAIN
// ================================================================================================

/// The modules being parsed, outermost first: each `use` enters the imported module before it
/// is parsed and leaves it afterwards, so that a module importing itself, directly or through
/// others, is caught.
pub struct DependencyChain {
    paths: Vec<String>,
}

impl View for DependencyChain {
    type V = Seq<Seq<char>>;

    closed spec fn view(&self) -> Seq<Seq<char>> {
        self.paths@.map_values(|p: String| p@)
    }
}

impl DependencyChain {
    /// No module appears twice on the chain: this holds until a circular import is found.
    pub open spec fn wf(self) -> bool {
        self@.no_duplicates()
    }

    /// An empty chain, as at the root of a script.
    pub fn new() -> (c: DependencyChain)
        ensures
            c.wf(),
            c@ == Seq::<Seq<char>>::empty(),
    {
        let c = DependencyChain { paths: Vec::new() };
        assert(c@ =~= Seq::<Seq<char>>::empty());
        c
    }

    /// Whether the module at `path` is on the chain.
    pub fn contains(&self, path: &str) -> (r: bool)
        ensures
            r == self@.contains(path@),
    {
        let target = path.to_owned();
        let mut i: usize = 0;
        while i < self.paths.len()
            invariant
                i <= self.paths@.len(),
                target@ == path@,
                forall|j: int| 0 <= j < i ==> self@[j] != path@,
            decreases self.paths@.len() - i,
        {
            if self.paths[i] == target {
                assert(self@[i as int] == path@);
                return true;
            }
            i = i + 1;
        }
        false
    }

    /// Enters the module at `path`: the module is appended to the chain. When it was on the
    /// chain already the import is circular, and the error carries the chain as it now stands,
    /// which shows the cycle.
    pub fn enter(&mut self, path: &str) -> (r: Result<(), Vec<String>>)
        ensures
            final(self)@ == old(self)@.push(path@),
            r is Err <==> old(self)@.contains(path@),
            r matches Err(cycle) ==> cycle@.map_values(|p: String| p@) == final(self)@,
            r is Ok && old(self).wf() ==> final(self).wf(),
    {
        let circular = self.contains(path);
        self.paths.push(path.to_owned());
        assert(self@ =~= old(self)@.push(path@));
        if circular {
            let cycle = self.paths.clone();
            proof {
                assert(cycle@ =~= self.paths@) by {
                    assert forall|j: int| 0 <= j < cycle@.len() implies cycle@[j] == self.paths@[j] by {
                        assert(vstd::pervasive::cloned(self.paths@[j], cycle@[j]));
                    }
                }
            }
            return Err(cycle);
        }
        Ok(())
    }

    /// Leaves the innermost module.
    pub fn leave(&mut self)
        requires
            old(self)@.len() > 0,
        ensures
            final(self)@ == old(self)@.drop_last(),
            old(self).wf() ==> final(self).wf(),
    {
        self.paths.pop();
        assert(self@ =~= old(self)@.drop_last());
    }
}

// SCRIPT STRUCTURE
// ================================================================================================

/// The instruction a token starts with, as far as the layout of a program is concerned.
#[derive(Clone, Copy, Debug, PartialEq, Eq, Structural)]
pub enum Keyword {
    Use,
    Proc,
    Export,
    Begin,
    End,
    Else,
    Other,
}

/// The keyword that a token whose first part is `head` starts with.
pub open spec fn keyword_of(head: Seq<char>) -> Keyword {
    if head == "use"@ {
        Keyword::Use
    } else if head == "proc"@ {
        Keyword::Proc
    } else if head == "export"@ {
        Keyword::Export
    } else if head == "begin"@ {
        Keyword::Begin
    } else if head == "end"@ {
        Keyword::End
    } else if head == "else"@ {
        Keyword::Else
    } else {
        Keyword::Other
    }
}

fn same_text(a: &str, b: &str) -> (r: bool)
    ensures
        r == (a@ == b@),
{
    a.to_owned() == b.to_owned()
}

/// Classifies a token by its first part.
pub fn keyword(head: &str) -> (r: Keyword)
    ensures
        r == keyword_of(head@),
{
    if same_text(head, "use") {
        Keyword::Use
    } else if same_text(head, "proc") {
        Keyword::Proc
    } else if same_text(head, "export") {
        Keyword::Export
    } else if same_text(head, "begin") {
        Keyword::Begin
    } else if same_text(head, "end") {
        Keyword::End
    } else if same_text(head, "else") {
        Keyword::Else
    } else {
        Keyword::Other
    }
}

/// Why the layout of a script is wrong.
#[derive(Clone, Copy, Debug, PartialEq, Eq, Structural)]
pub enum LayoutError {
    /// The source ended where a token was expected.
    UnexpectedEof,
    /// After the imports and procedures, the next token does not begin the script body.
    UnexpectedToken,
    /// The script body is not closed by `end`.
    UnmatchedBegin,
    /// An `else` stands where the script body should be closed.
    DanglingElse,
    /// Tokens follow the `end` that closes the script body.
    DanglingOpsAfterScript,
}

/// After the imports and the procedures of a script, the body must begin: `next` is the first
/// part of the next token, `None` at the end of the source.
pub fn check_script_begin(next: Option<&str>) -> (r: Result<(), LayoutError>)
    ensures
        r == match next {
            None => Err(LayoutError::UnexpectedEof),
            Some(head) => if keyword_of(head@) == Keyword::Begin {
                Ok(())
            } else {
                Err(LayoutError::UnexpectedToken)
            },
        },
{
    match next {
        None => Err(LayoutError::UnexpectedEof),
        Some(head) => match keyword(head) {
            Keyword::Begin => Ok(()),
            _ => Err(LayoutError::UnexpectedToken),
        },
    }
}

/// How a script body closes: `next` is the first part of the token after the body (`None` at
/// the end of the source), and `trailing` tells whether any token follows that one. Only an
/// `end` with nothing after it closes the body.
pub open spec fn end_spec(next: Option<Seq<char>>, trailing: bool) -> Result<(), LayoutError> {
    match next {
        None => Err(LayoutError::UnmatchedBegin),
        Some(head) => match keyword_of(head) {
            Keyword::End => if trailing {
                Err(LayoutError::DanglingOpsAfterScript)
            } else {
                Ok(())
            },
            Keyword::Else => Err(LayoutError::DanglingElse),
            _ => Err(LayoutError::UnmatchedBegin),
        },
    }
}

/// The first part of a token, as characters.
pub open spec fn head_view(next: Option<&str>) -> Option<Seq<char>> {
    match next {
        None => None,
        Some(head) => Some(head@),
    }
}

/// After the script body has been parsed, the next token must be the `end` that closes it and
/// nothing may follow: `next` is the first part of the token after the body (`None` at the end
/// of the source), and `trailing` tells whether any token follows that one.
pub fn check_script_end(next: Option<&str>, trailing: bool) -> (r: Result<(), LayoutError>)
    ensures
        r == end_spec(head_view(next), trailing),
{
    match next {
        None => Err(LayoutError::UnmatchedBegin),
        Some(head) => match keyword(head) {
            Keyword::End => {
                if trailing {
                    Err(LayoutError::DanglingOpsAfterScript)
                } else {
                    Ok(())
                }
            },
            Keyword::Else => Err(LayoutError::DanglingElse),
            _ => Err(LayoutError::UnmatchedBegin),
        },
    }
}

/// The first index at or after `i` whose head is not a `use`, or the length of `heads`.
pub open spec fn skip_imports(heads: Seq<Seq<char>>, i: int) -> int
    decreases heads.len() - i,
{
    if i < 0 || i >= heads.len() || keyword_of(heads[i]) != Keyword::Use {
        i
    } else {
        skip_imports(heads, i + 1)
    }
}

/// The first index at or after `i` whose head starts no procedure, or the length of `heads`.
pub open spec fn skip_procedures(heads: Seq<Seq<char>>, i: int) -> int
    decreases heads.len() - i,
{
    if i < 0 || i >= heads.len() || !(keyword_of(heads[i]) == Keyword::Proc || keyword_of(heads[i])
        == Keyword::Export) {
        i
    } else {
        skip_procedures(heads, i + 1)
    }
}

/// Where the body of a script begins, given `heads`, in order, the first parts of its leading
/// tokens: one for each `use` instruction, one for the header of each procedure, and then the
/// one that should begin the body. Imports come first, procedures next, and then `begin`.
pub open spec fn layout_spec(heads: Seq<Seq<char>>) -> Result<usize, (usize, LayoutError)> {
    let j = skip_procedures(heads, skip_imports(heads, 0));
    if j >= heads.len() {
        Err((j as usize, LayoutError::UnexpectedEof))
    } else if keyword_of(heads[j]) == Keyword::Begin {
        Ok(j as usize)
    } else {
        Err((j as usize, LayoutError::UnexpectedToken))
    }
}

/// Whether `head` starts a procedure.
pub open spec fn starts_procedure(head: Seq<char>) -> bool {
    keyword_of(head) == Keyword::Proc || keyword_of(head) == Keyword::Export
}

/// The position a layout result names: where the body begins, or where the order breaks.
pub open spec fn layout_position(r: Result<usize, (usize, LayoutError)>) -> int {
    match r {
        Ok(j) => j as int,
        Err(e) => e.0 as int,
    }
}

/// Tokens `0..u` of `heads` are imports and tokens `u..j` start procedures.
pub open spec fn imports_then_procedures(heads: Seq<Seq<char>>, u: int, j: int) -> bool {
    &&& 0 <= u <= j
    &&& forall|m: int| 0 <= m < u ==> keyword_of(#[trigger] heads[m]) == Keyword::Use
    &&& forall|m: int| u <= m < j ==> starts_procedure(#[trigger] heads[m])
}

proof fn lemma_skip_imports(h: Seq<Seq<char>>, i: int)
    requires
        0 <= i <= h.len(),
    ensures
        ({
            let r = skip_imports(h, i);
            &&& i <= r <= h.len()
            &&& forall|m: int| i <= m < r ==> keyword_of(#[trigger] h[m]) == Keyword::Use
            &&& r == h.len() || keyword_of(h[r]) != Keyword::Use
        }),
    decreases h.len() - i,
{
    if i < h.len() && keyword_of(h[i]) == Keyword::Use {
        lemma_skip_imports(h, i + 1);
    }
}

proof fn lemma_skip_procedures(h: Seq<Seq<char>>, i: int)
    requires
        0 <= i <= h.len(),
    ensures
        ({
            let r = skip_procedures(h, i);
            &&& i <= r <= h.len()
            &&& forall|m: int| i <= m < r ==> starts_procedure(#[trigger] h[m])
            &&& r == h.len() || !starts_procedure(h[r])
        }),
    decreases h.len() - i,
{
    if i < h.len() && starts_procedure(h[i]) {
        lemma_skip_procedures(h, i + 1);
    }
}

/// A script whose leading tokens are `u` imports, then `p` procedures (`proc` or `export`,
/// in any mix and any number), then `begin`, is laid out correctly, its body beginning at
/// `u + p`.
pub proof fn law_layout_accepts(heads: Seq<Seq<char>>, u: int, p: int)
    requires
        0 <= u,
        0 <= p,
        u + p < heads.len() <= usize::MAX,
        forall|m: int| 0 <= m < u ==> keyword_of(#[trigger] heads[m]) == Keyword::Use,
        forall|m: int| u <= m < u + p ==> starts_procedure(#[trigger] heads[m]),
        keyword_of(heads[u + p]) == Keyword::Begin,
    ensures
        layout_spec(heads) == Ok::<usize, (usize, LayoutError)>((u + p) as usize),
{
    lemma_skip_imports(heads, 0);
    let a = skip_imports(heads, 0);
    if a < u {
        assert(keyword_of(heads[a]) == Keyword::Use);
    }
    if a > u {
        assert(keyword_of(heads[u]) == Keyword::Use);
        if p > 0 {
            assert(starts_procedure(heads[u]));
        }
    }
    assert(a == u);
    lemma_skip_procedures(heads, u);
    let b = skip_procedures(heads, u);
    if b < u + p {
        assert(starts_procedure(heads[b]));
    }
    if b > u + p {
        assert(starts_procedure(heads[u + p]));
    }
    assert(b == u + p);
}

/// What a layout result says of the leading tokens: on success at `j`, the tokens before `j`
/// are imports followed by procedures and token `j` is `begin`; on failure at `j`, the same
/// holds of the tokens before `j`, and token `j` is missing or is neither `begin`, an import
/// nor a procedure where one could still stand.
pub proof fn law_layout_reads_leading_tokens(heads: Seq<Seq<char>>)
    requires
        heads.len() <= usize::MAX,
    ensures
        ({
            let r = layout_spec(heads);
            let j = layout_position(r);
            &&& 0 <= j <= heads.len()
            &&& exists|u: int| #[trigger] imports_then_procedures(heads, u, j)
            &&& r is Ok ==> j < heads.len() && keyword_of(heads[j]) == Keyword::Begin
            &&& r is Err ==> (r->Err_0.1 == LayoutError::UnexpectedEof && j == heads.len()) || (
            r->Err_0.1 == LayoutError::UnexpectedToken && j < heads.len() && keyword_of(heads[j])
                != Keyword::Begin && !starts_procedure(heads[j]))
        }),
{
    lemma_skip_imports(heads, 0);
    let a = skip_imports(heads, 0);
    lemma_skip_procedures(heads, a);
    let b = skip_procedures(heads, a);
    assert(imports_then_procedures(heads, a, b));
    let r = layout_spec(heads);
    let j = layout_position(r);
    assert(j == b);
    if b >= heads.len() {
        assert(r is Err && r->Err_0.1 == LayoutError::UnexpectedEof);
    } else if keyword_of(heads[b]) == Keyword::Begin {
        assert(r is Ok);
    } else {
        assert(r is Err && r->Err_0.1 == LayoutError::UnexpectedToken);
        assert(!starts_procedure(heads[j]));
    }
    assert(0 <= j <= heads.len());
    assert(exists|u: int| #[trigger] imports_then_procedures(heads, u, j));
    assert(r is Ok ==> j < heads.len() && keyword_of(heads[j]) == Keyword::Begin);
    assert(r is Err ==> (r->Err_0.1 == LayoutError::UnexpectedEof && j == heads.len()) || (
    r->Err_0.1 == LayoutError::UnexpectedToken && j < heads.len() && keyword_of(heads[j])
        != Keyword::Begin && !starts_procedure(heads[j])));
}

/// Checks the order of a script's leading tokens: `use` instructions, then procedures
/// (`proc` or `export`), then `begin`. On success returns the position of `begin`; otherwise
/// the position at which the order breaks, with the reason.
pub fn script_layout(heads: &[&str]) -> (r: Result<usize, (usize, LayoutError)>)
    ensures
        r == layout_spec(heads@.map_values(|h: &str| h@)),
{
    let ghost hs = heads@.map_values(|h: &str| h@);
    let n = heads.len();
    let mut i: usize = 0;
    while i < n && keyword(heads[i]) == Keyword::Use
        invariant
            n == heads@.len(),
            hs == heads@.map_values(|h: &str| h@),
            i <= n,
            skip_imports(hs, i as int) == skip_imports(hs, 0),
        decreases n - i,
    {
        i = i + 1;
    }
    let ghost start = i as int;
    while i < n && (keyword(heads[i]) == Keyword::Proc || keyword(heads[i]) == Keyword::Export)
        invariant
            n == heads@.len(),
            hs == heads@.map_values(|h: &str| h@),
            i <= n,
            start == skip_imports(hs, 0),
            skip_procedures(hs, i as int) == skip_procedures(hs, start),
        decreases n - i,
    {
        i = i + 1;
    }
    if i >= n {
        Err((i, LayoutError::UnexpectedEof))
    } else if keyword(heads[i]) == Keyword::Begin {
        Ok(i)
    } else {
        Err((i, LayoutError::UnexpectedToken))
    }
}

} // verus!
