//! The tokens by which sandboxes prove themselves.

use vstd::prelude::*;

use crate::labels::{base64_text, encode_base64};
use crate::table::{lists, Table};
use crate::text::{
    chars_of, law_split_of_one, law_split_of_two, same_text, split, split_text, text_of, views,
};

verus! {

/// The header with a sandbox's token.
pub const SANDBOX_TOKEN_HEADER: &'static str = "x-agentio-sandbox-token";

/// The header with a sandbox's identifier.
pub const SANDBOX_ID_HEADER: &'static str = "x-agentio-sandbox-id";

/// The header with a sandbox's generation.
pub const SANDBOX_GENERATION_HEADER: &'static str = "x-agentio-sandbox-generation";

/// The header with a sandbox's labels.
pub const SANDBOX_LABELS_HEADER: &'static str = "x-agentio-sandbox-labels";

/// For how many milliseconds changes of token files are gathered: a remount brings
/// several in quick succession.
pub const SANDBOX_WATCHER_DEBOUNCE_MS: u64 = 2000;

/// The part of a path that names a file: the last one that is not empty and not a
/// dot.
pub open spec fn last_part(parts: Seq<Seq<char>>) -> Option<Seq<char>>
    decreases parts.len(),
{
    if parts.len() == 0 {
        None
    } else if parts.last().len() == 0 || parts.last() == "."@ {
        last_part(parts.drop_last())
    } else {
        Some(parts.last())
    }
}

/// The name of the file that a path leads to; a path that ends in its parent
/// directory leads to none.
pub open spec fn file_name(path: Seq<char>) -> Option<Seq<char>> {
    match last_part(split(path, '/')) {
        Some(name) => if name == ".."@ {
            None
        } else {
            Some(name)
        },
        None => None,
    }
}

/// Where the last dot stands.
pub open spec fn last_dot(name: Seq<char>) -> Option<int>
    decreases name.len(),
{
    if name.len() == 0 {
        None
    } else if name.last() == '.' {
        Some(name.len() - 1)
    } else {
        last_dot(name.drop_last())
    }
}

/// A name without its extension, which is what stands behind the last dot, unless
/// nothing stands before it.
pub open spec fn stem(name: Seq<char>) -> Seq<char> {
    match last_dot(name) {
        Some(i) => if i > 0 {
            name.take(i)
        } else {
            name
        },
        None => name,
    }
}

/// What a token file holds, in a form that fits in a header.
pub fn sandbox_token_transform(content: String) -> (r: String)
    ensures
        r@ == base64_text(content@),
{
    encode_base64(content.as_str())
}

fn stem_of(name: &str) -> (r: String)
    ensures
        r@ == stem(name@),
{
    let chars: Vec<char> = chars_of(name);
    let mut i: usize = chars.len();
    assert(name@.take(name@.len() as int) =~= name@);
    while i > 0
        invariant
            i <= chars@.len(),
            chars@ == name@,
            last_dot(name@) == last_dot(name@.take(i as int)),
        decreases i,
    {
        assert(name@.take(i as int).drop_last() =~= name@.take(i - 1));
        i = i - 1;
        if chars[i] == '.' {
            if i == 0 {
                return name.to_owned();
            }
            assert(chars@.subrange(0, i as int) =~= name@.take(i as int));
            return text_of(vstd::slice::slice_subrange(chars.as_slice(), 0, i));
        }
    }
    name.to_owned()
}

/// Under which key the token of a file is kept: the name of the file without its
/// extension. A path that names no file has none.
pub fn sandbox_token_key(path: &str) -> (r: Option<String>)
    ensures
        match r {
            Some(key) => file_name(path@) matches Some(name) && key@ == stem(name),
            None => file_name(path@) is None,
        },
{
    let parts: Vec<String> = split_text(path, '/');
    let ghost all = views(parts@);
    let mut i: usize = parts.len();
    assert(all.take(all.len() as int) =~= all);
    while i > 0
        invariant
            i <= parts@.len(),
            all == views(parts@),
            all == split(path@, '/'),
            last_part(all) == last_part(all.take(i as int)),
        decreases i,
    {
        assert(all.take(i as int).drop_last() =~= all.take(i - 1));
        i = i - 1;
        assert(all[i as int] == parts@[i as int]@);
        if !parts[i].is_empty() && !same_text(parts[i].as_str(), ".") {
            if same_text(parts[i].as_str(), "..") {
                return None;
            }
            return Some(stem_of(parts[i].as_str()));
        }
    }
    None
}

/// The tokens of all sandboxes, as their files hold them.
pub struct SandboxManager {
    store: Table<String, String>,
}

/// What a file that changed makes of the tokens.
pub open spec fn is_changed(
    before: Map<Seq<char>, String>,
    path: Seq<char>,
    content: Seq<char>,
    after: Map<Seq<char>, String>,
) -> bool {
    match file_name(path) {
        Some(name) => after.dom() == before.dom().insert(stem(name)) && after[stem(name)]@
            == base64_text(content) && forall|k: Seq<char>|
            k != stem(name) ==> after[k] == before[k],
        None => after == before,
    }
}

/// What a file that is gone makes of the tokens.
pub open spec fn is_removed(
    before: Map<Seq<char>, String>,
    path: Seq<char>,
    after: Map<Seq<char>, String>,
) -> bool {
    match file_name(path) {
        Some(name) => after == before.remove(stem(name)),
        None => after == before,
    }
}

impl View for SandboxManager {
    type V = Map<Seq<char>, String>;

    closed spec fn view(&self) -> Map<Seq<char>, String> {
        self.store@
    }
}

impl SandboxManager {
    /// No tokens yet.
    pub fn new() -> (r: SandboxManager)
        ensures
            r@ == Map::<Seq<char>, String>::empty(),
    {
        SandboxManager { store: Table::new() }
    }

    /// A token file has this content now. A path that names no file is passed over.
    pub fn file_changed(&mut self, path: &str, content: String)
        ensures
            is_changed(old(self)@, path@, content@, final(self)@),
    {
        if let Some(key) = sandbox_token_key(path) {
            let token: String = sandbox_token_transform(content);
            let ghost before = self.store@;
            self.store.insert(key, token);
            assert(self.store@ == before.insert(key@, token));
        }
    }

    /// A token file is gone.
    pub fn file_removed(&mut self, path: &str)
        ensures
            is_removed(old(self)@, path@, final(self)@),
    {
        if let Some(key) = sandbox_token_key(path) {
            self.store.remove(&key);
        }
    }

    /// The tokens of all sandboxes.
    pub fn list_sandbox_tokens(&self) -> (r: &Vec<(String, String)>)
        ensures
            lists(r@, self@),
    {
        self.store.entries()
    }

    /// The token of a sandbox.
    pub fn get_sandbox_token(&self, sandbox_id: &String) -> (r: Option<&String>)
        ensures
            r == (if self@.dom().contains(sandbox_id@) {
                Some(&self@[sandbox_id@])
            } else {
                None
            }),
    {
        self.store.get(sandbox_id)
    }
}

/// A path leads to the file whose name stands behind its last slash, and to the same
/// file with slashes and dots behind it. One that ends in two dots leads to none.
pub proof fn law_paths_lead_to_files(path: Seq<char>, name: Seq<char>)
    requires
        name.len() > 0,
        !name.contains('/'),
        name != seq!['.'],
        name != seq!['.', '.'],
    ensures
        file_name(name) == Some(name),
        file_name(path + seq!['/'] + name) == Some(name),
        file_name(path + seq!['/']) == file_name(path),
        file_name(path + seq!['/', '.']) == file_name(path),
        file_name(path + seq!['/', '.', '.']) is None,
{
    reveal_strlit(".");
    reveal_strlit("..");
    assert("."@ =~= seq!['.']);
    assert(".."@ =~= seq!['.', '.']);
    let none = Seq::<char>::empty();
    law_split_of_one(name, '/');
    law_split_of_one(none, '/');
    law_split_of_one("."@, '/');
    law_split_of_one(".."@, '/');
    law_split_of_two(path, name, '/');
    law_split_of_two(path, none, '/');
    law_split_of_two(path, "."@, '/');
    law_split_of_two(path, ".."@, '/');
    assert(path + seq!['/'] + none =~= path + seq!['/']);
    assert(path + seq!['/'] + "."@ =~= path + seq!['/', '.']);
    assert(path + seq!['/'] + ".."@ =~= path + seq!['/', '.', '.']);
    let parts = split(path, '/');
    assert((parts + seq![name]).last() == name);
    assert((parts + seq![none]).drop_last() =~= parts);
    assert((parts + seq!["."@]).drop_last() =~= parts);
    assert((parts + seq![".."@]).last() == ".."@);
    assert(".."@.len() == 2);
}

/// A token is kept under the name of its file up to the last dot. A name without a dot,
/// or whose only dot comes first, is kept whole.
pub proof fn law_key_is_the_name_without_its_end(start: Seq<char>, end: Seq<char>)
    requires
        !end.contains('.'),
    ensures
        stem(start + seq!['.'] + end) == (if start.len() > 0 {
            start
        } else {
            seq!['.'] + end
        }),
        stem(end) == end,
    decreases end.len(),
{
    let name = start + seq!['.'] + end;
    lemma_last_dot(start, end);
    lemma_no_dot(end);
    assert(name.take(start.len() as int) =~= start);
    if start.len() == 0 {
        assert(name =~= seq!['.'] + end);
    }
}

proof fn lemma_no_dot(end: Seq<char>)
    requires
        !end.contains('.'),
    ensures
        last_dot(end) is None,
    decreases end.len(),
{
    if end.len() > 0 {
        let short = end.drop_last();
        assert(end.contains(end[end.len() - 1]));
        assert(!short.contains('.')) by {
            if short.contains('.') {
                let i = choose|i: int| 0 <= i < short.len() && short[i] == '.';
                assert(end[i] == '.');
            }
        }
        lemma_no_dot(short);
    }
}

proof fn lemma_last_dot(start: Seq<char>, end: Seq<char>)
    requires
        !end.contains('.'),
    ensures
        last_dot(start + seq!['.'] + end) == Some(start.len() as int),
    decreases end.len(),
{
    let name = start + seq!['.'] + end;
    if end.len() > 0 {
        let short = end.drop_last();
        assert(end.contains(end[end.len() - 1]));
        assert(!short.contains('.')) by {
            if short.contains('.') {
                let i = choose|i: int| 0 <= i < short.len() && short[i] == '.';
                assert(end[i] == '.');
            }
        }
        lemma_last_dot(start, short);
        assert(name.drop_last() =~= start + seq!['.'] + short);
        assert(name.last() == end.last());
    } else {
        assert(name.last() == '.');
    }
}

/// A file's token is there from when the file came until it goes, as the base64 of what
/// the file held last, and no other token has a part in it. A path that leads to no file
/// changes nothing.
pub proof fn law_tokens_are_those_of_the_files(
    before: Map<Seq<char>, String>,
    path: Seq<char>,
    content: Seq<char>,
    after: Map<Seq<char>, String>,
    gone: Map<Seq<char>, String>,
    other: Seq<char>,
)
    requires
        is_changed(before, path, content, after),
        is_removed(after, path, gone),
        file_name(path) matches Some(name) ==> other != stem(name),
    ensures
        file_name(path) matches Some(name) ==> {
            &&& after.dom().contains(stem(name))
            &&& after[stem(name)]@ == base64_text(content)
            &&& !gone.dom().contains(stem(name))
        },
        after.dom().contains(other) <==> before.dom().contains(other),
        gone.dom().contains(other) <==> before.dom().contains(other),
        before.dom().contains(other) ==> after[other] == before[other] && gone[other]
            == before[other],
        file_name(path) is None ==> gone == before,
{
}

} // verus!
