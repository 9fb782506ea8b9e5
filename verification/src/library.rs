use vstd::prelude::*;
use crate::text::{
    chars_of, i64_decimal, int_decimal, lemma_lex_irreflexive, lemma_lex_total,
    lemma_lex_transitive, lex_less, lex_lt, push_all, string_of,
};

verus! {

/// One downloadable build of a game.
#[derive(Debug)]
pub struct Download {
    pub manual_url: String,
    pub downloader_url: Option<String>,
    pub name: String,
    pub version: Option<String>,
    pub date: String,
    pub size: String,
}

/// The builds of a game for each operating system, where it has any.
#[derive(Debug)]
pub struct Downloads {
    pub windows: Option<Vec<Download>>,
    pub mac: Option<Vec<Download>>,
    pub linux: Option<Vec<Download>>,
}

/// An extra that comes with a game, such as a soundtrack.
#[derive(Debug)]
pub struct Extra {
    pub manual_url: String,
    pub downloader_url: Option<String>,
    pub name: String,
    pub extra_type: String,
    pub info: i64,
    pub size: String,
}

/// What the library knows of an owned game: its title, builds, extras and DLCs.
#[derive(Debug)]
pub struct GameDetails {
    pub title: String,
    pub downloads: Downloads,
    pub extras: Vec<Extra>,
    pub dlcs: Vec<GameDetails>,
}

/// A product of the library as a product search lists it.
#[derive(Debug)]
pub struct ProductDetails {
    pub title: String,
    pub id: i64,
}

/// A game of the library, as a search or a lookup by id found it.
#[derive(Debug)]
pub enum Game {
    ProductInfo(ProductDetails),
    GameInfo(GameDetails, i64),
}

/// The games that `ls` shows.
#[derive(Debug)]
pub struct GamesList {
    pub games: Vec<Game>,
}

/// The title of a game.
pub open spec fn game_title(g: Game) -> Seq<char> {
    match g {
        Game::ProductInfo(d) => d.title@,
        Game::GameInfo(d, _) => d.title@,
    }
}

/// The id of a game.
pub open spec fn game_id(g: Game) -> i64 {
    match g {
        Game::ProductInfo(d) => d.id,
        Game::GameInfo(_, id) => id,
    }
}

impl Game {
    /// The game's title.
    pub fn title(&self) -> (t: String)
        ensures
            t@ == game_title(*self),
    {
        match self {
            Game::ProductInfo(details) => details.title.clone(),
            Game::GameInfo(details, _id) => details.title.clone(),
        }
    }

    /// The game's id.
    pub fn id(&self) -> (id: i64)
        ensures
            id == game_id(*self),
    {
        match self {
            Game::ProductInfo(details) => details.id,
            Game::GameInfo(_details, id) => *id,
        }
    }
}

/// Each game's title comes no later than the next one's.
pub open spec fn sorted_by_title(s: Seq<Game>) -> bool {
    forall|i: int, j: int|
        0 <= i < j < s.len() ==> !lex_lt(game_title(#[trigger] s[j]), game_title(#[trigger] s[i]))
}

/// `p` lists each index below `n` exactly once.
pub open spec fn is_permutation(p: Seq<int>, n: nat) -> bool {
    &&& p.len() == n
    &&& forall|k: int| 0 <= k < n ==> 0 <= #[trigger] p[k] < n
    &&& forall|k1: int, k2: int| 0 <= k1 < k2 < n ==> #[trigger] p[k1] != #[trigger] p[k2]
}

/// `out` is `inp` reordered by `p` (`out[k]` is `inp[p[k]]`), and games of equal title keep
/// the order they had.
pub open spec fn stable_reordering(inp: Seq<Game>, out: Seq<Game>, p: Seq<int>) -> bool {
    &&& out.len() == inp.len()
    &&& is_permutation(p, inp.len())
    &&& forall|k: int| 0 <= k < out.len() ==> #[trigger] out[k] == inp[p[k]]
    &&& forall|k1: int, k2: int|
        0 <= k1 < k2 < out.len() && game_title(#[trigger] out[k1]) == game_title(#[trigger] out[k2])
            ==> p[k1] < p[k2]
}

/// The title of a game, as characters.
fn title_chars(g: &Game) -> (t: Vec<char>)
    ensures
        t@ == game_title(*g),
{
    let s = g.title();
    chars_of(s.as_str())
}

/// Where the game at index `k` was before the game at index `i` moved to index `j`.
spec fn shift(k: int, i: int, j: int) -> int {
    if k < j {
        k
    } else if k == j {
        i
    } else if k <= i {
        k - 1
    } else {
        k
    }
}

proof fn lemma_insert_step(
    inp: Seq<Game>,
    before: Seq<Game>,
    after: Seq<Game>,
    pb: Seq<int>,
    p: Seq<int>,
    x: Seq<char>,
    n: int,
    i: int,
    j: int,
)
    requires
        n == inp.len() && n == before.len() && n == after.len() && n == pb.len() && n == p.len(),
        0 <= j <= i < n,
        forall|a: int, b: int|
            0 <= a < b < i ==> !lex_lt(game_title(#[trigger] before[b]), game_title(#[trigger] before[a])),
        forall|k: int| i <= k < n ==> #[trigger] pb[k] == k,
        forall|k: int| 0 <= k < i ==> 0 <= #[trigger] pb[k] < i,
        forall|k1: int, k2: int| 0 <= k1 < k2 < i ==> #[trigger] pb[k1] != #[trigger] pb[k2],
        forall|k: int| 0 <= k < n ==> #[trigger] before[k] == inp[pb[k]],
        forall|k1: int, k2: int|
            0 <= k1 < k2 < i && game_title(#[trigger] before[k1]) == game_title(#[trigger] before[k2])
                ==> pb[k1] < pb[k2],
        forall|k: int|
            #![trigger after[k]]
            #![trigger p[k]]
            0 <= k < n ==> after[k] == before[shift(k, i, j)] && p[k] == pb[shift(k, i, j)],
        x == game_title(before[i]),
        forall|k: int| 0 <= k < j ==> !lex_lt(x, game_title(#[trigger] before[k])),
        j < i ==> lex_lt(x, game_title(before[j])),
    ensures
        forall|a: int, b: int|
            0 <= a < b < i + 1 ==> !lex_lt(game_title(#[trigger] after[b]), game_title(#[trigger] after[a])),
        forall|k: int| i + 1 <= k < n ==> #[trigger] p[k] == k,
        forall|k: int| 0 <= k < i + 1 ==> 0 <= #[trigger] p[k] < i + 1,
        forall|k1: int, k2: int| 0 <= k1 < k2 < i + 1 ==> #[trigger] p[k1] != #[trigger] p[k2],
        forall|k: int| 0 <= k < n ==> #[trigger] after[k] == inp[p[k]],
        forall|k1: int, k2: int|
            0 <= k1 < k2 < i + 1 && game_title(#[trigger] after[k1]) == game_title(#[trigger] after[k2])
                ==> p[k1] < p[k2],
{
    assert(pb[i] == i);
    assert forall|k: int| i + 1 <= k < n implies #[trigger] p[k] == k by {
        assert(p[k] == pb[shift(k, i, j)]);
    }
    assert forall|k: int| 0 <= k < i + 1 implies 0 <= #[trigger] p[k] < i + 1 by {
        assert(p[k] == pb[shift(k, i, j)]);
    }
    assert forall|k1: int, k2: int| 0 <= k1 < k2 < i + 1 implies #[trigger] p[k1] != #[trigger] p[k2] by {
        assert(p[k1] == pb[shift(k1, i, j)]);
        assert(p[k2] == pb[shift(k2, i, j)]);
        let s1 = shift(k1, i, j);
        let s2 = shift(k2, i, j);
        assert(s1 != s2);
        if s1 < i && s2 < i {
            if s1 < s2 {
                assert(pb[s1] != pb[s2]);
            } else {
                assert(pb[s2] != pb[s1]);
            }
        }
    }
    assert forall|k: int| 0 <= k < n implies #[trigger] after[k] == inp[p[k]] by {
        assert(after[k] == before[shift(k, i, j)]);
        assert(p[k] == pb[shift(k, i, j)]);
    }
    assert forall|a: int, b: int|
        0 <= a < b < i + 1 implies !lex_lt(game_title(#[trigger] after[b]), game_title(#[trigger] after[a])) by {
        assert(after[a] == before[shift(a, i, j)]);
        assert(after[b] == before[shift(b, i, j)]);
        if a == j {
            let tb = game_title(before[b - 1]);
            let tj = game_title(before[j]);
            if lex_lt(tb, x) {
                if b - 1 == j {
                    lemma_lex_total(tb, x);
                } else {
                    assert(!lex_lt(tb, tj));
                    lemma_lex_transitive(tb, x, tj);
                }
            }
        } else if b == j {
        } else {
            let sa = shift(a, i, j);
            let sb = shift(b, i, j);
            assert(sa < sb && sb < i);
        }
    }
    assert forall|k1: int, k2: int|
        0 <= k1 < k2 < i + 1 && game_title(#[trigger] after[k1]) == game_title(#[trigger] after[k2])
            implies p[k1] < p[k2] by {
        assert(after[k1] == before[shift(k1, i, j)]);
        assert(after[k2] == before[shift(k2, i, j)]);
        assert(p[k1] == pb[shift(k1, i, j)]);
        assert(p[k2] == pb[shift(k2, i, j)]);
        if k1 == j {
            let tb = game_title(before[k2 - 1]);
            let tj = game_title(before[j]);
            if k2 - 1 == j {
                lemma_lex_irreflexive(x);
            } else {
                assert(!lex_lt(tb, tj));
                lemma_lex_total(tb, tj);
                if lex_lt(tj, tb) {
                    lemma_lex_transitive(x, tj, tb);
                }
                lemma_lex_irreflexive(x);
            }
        } else if k2 == j {
        } else {
            let s1 = shift(k1, i, j);
            let s2 = shift(k2, i, j);
            assert(s1 < s2 && s2 < i);
        }
    }
}

impl GamesList {
    /// Orders the games by title, keeping games of equal title in the order they had.
    pub fn sort_by_title(&mut self)
        ensures
            sorted_by_title(final(self).games@),
            exists|p: Seq<int>| stable_reordering(old(self).games@, final(self).games@, p),
    {
        let ghost inp = self.games@;
        let n = self.games.len();
        let ghost mut p: Seq<int> = Seq::new(n as nat, |k: int| k);
        let mut i: usize = 0;
        while i < n
            invariant
                n == inp.len(),
                i <= n,
                self.games@.len() == n,
                forall|a: int, b: int|
                    0 <= a < b < i ==> !lex_lt(game_title(#[trigger] self.games@[b]), game_title(#[trigger] self.games@[a])),
                p.len() == n,
                forall|k: int| i <= k < n ==> #[trigger] p[k] == k,
                forall|k: int| 0 <= k < i ==> 0 <= #[trigger] p[k] < i,
                forall|k1: int, k2: int| 0 <= k1 < k2 < i ==> #[trigger] p[k1] != #[trigger] p[k2],
                forall|k: int| 0 <= k < n ==> #[trigger] self.games@[k] == inp[p[k]],
                forall|k1: int, k2: int|
                    0 <= k1 < k2 < i && game_title(#[trigger] self.games@[k1]) == game_title(
                        #[trigger] self.games@[k2],
                    ) ==> p[k1] < p[k2],
            decreases n - i,
        {
            let x = title_chars(&self.games[i]);
            let mut j: usize = 0;
            while j < i && !lex_less(x.as_slice(), title_chars(&self.games[j]).as_slice())
                invariant
                    j <= i < n,
                    self.games@.len() == n,
                    x@ == game_title(self.games@[i as int]),
                    forall|k: int| 0 <= k < j ==> !lex_lt(x@, game_title(#[trigger] self.games@[k])),
                decreases i - j,
            {
                j += 1;
            }
            let ghost before = self.games@;
            let ghost pb = p;
            let g = self.games.remove(i);
            self.games.insert(j, g);
            proof {
                let after = self.games@;
                p = pb.take(j as int) + seq![i as int] + pb.subrange(j as int, i as int) + pb.skip(i + 1);
                assert forall|k: int| 0 <= k < n implies #[trigger] after[k] == before[shift(k, i as int, j as int)] && p[k] == pb[shift(k, i as int, j as int)] by {
                    if k < j {
                    } else if k == j {
                    } else if k <= i {
                    } else {
                    }
                }
                lemma_insert_step(inp, before, after, pb, p, x@, n as int, i as int, j as int);
            }
            i += 1;
        }
        proof {
            assert(stable_reordering(inp, self.games@, p));
        }
    }
}

/// The line that `ls` prints for a game: its title, ` - ` and its id.
pub open spec fn game_line(g: Game) -> Seq<char> {
    game_title(g) + " - "@ + int_decimal(game_id(g) as int)
}

impl GamesList {
    /// The lines that `ls` prints: a header, then one line per game, in the list's order.
    pub fn listing(&self) -> (lines: Vec<String>)
        ensures
            lines@.len() == self.games@.len() + 1,
            lines@[0]@ == "Title - GameID"@,
            forall|k: int| 0 <= k < self.games@.len() ==> #[trigger] lines@[k + 1]@ == game_line(self.games@[k]),
    {
        let mut lines: Vec<String> = Vec::new();
        lines.push(String::from_str("Title - GameID"));
        let mut i: usize = 0;
        while i < self.games.len()
            invariant
                i <= self.games@.len(),
                lines@.len() == i + 1,
                lines@[0]@ == "Title - GameID"@,
                forall|k: int| 0 <= k < i ==> #[trigger] lines@[k + 1]@ == game_line(self.games@[k]),
            decreases self.games@.len() - i,
        {
            let g = &self.games[i];
            let mut line = title_chars(g);
            push_all(&mut line, chars_of(" - ").as_slice());
            push_all(&mut line, i64_decimal(g.id()).as_slice());
            lines.push(string_of(line.as_slice()));
            i += 1;
        }
        lines
    }
}

proof fn lemma_increasing_permutation_is_identity(p: Seq<int>, n: nat)
    requires
        is_permutation(p, n),
        forall|k1: int, k2: int| 0 <= k1 < k2 < n ==> #[trigger] p[k1] < #[trigger] p[k2],
    ensures
        forall|k: int| 0 <= k < n ==> #[trigger] p[k] == k,
{
    assert forall|k: int| 0 <= k < n implies #[trigger] p[k] >= k by {
        lemma_increasing_lower(p, n, k);
    }
    assert forall|k: int| 0 <= k < n implies #[trigger] p[k] <= k by {
        lemma_increasing_tail(p, n, k);
    }
}

proof fn lemma_increasing_lower(p: Seq<int>, n: nat, k: int)
    requires
        is_permutation(p, n),
        forall|k1: int, k2: int| 0 <= k1 < k2 < n ==> #[trigger] p[k1] < #[trigger] p[k2],
        0 <= k < n,
    ensures
        p[k] >= k,
    decreases k,
{
    if k > 0 {
        lemma_increasing_lower(p, n, k - 1);
        assert(p[k - 1] < p[k]);
    }
}

proof fn lemma_increasing_tail(p: Seq<int>, n: nat, k: int)
    requires
        is_permutation(p, n),
        forall|k1: int, k2: int| 0 <= k1 < k2 < n ==> #[trigger] p[k1] < #[trigger] p[k2],
        0 <= k < n,
    ensures
        p[k] <= k,
    decreases n - k,
{
    if k < n - 1 {
        lemma_increasing_tail(p, n, k + 1);
        assert(p[k] < p[k + 1]);
    } else {
        assert(p[k] < n);
    }
}

/// Ordering by title a list that is already in title order leaves it as it was.
pub proof fn law_sort_keeps_sorted_list(inp: Seq<Game>, out: Seq<Game>, p: Seq<int>)
    requires
        sorted_by_title(inp),
        sorted_by_title(out),
        stable_reordering(inp, out, p),
    ensures
        out == inp,
{
    let n = inp.len();
    assert forall|k1: int, k2: int| 0 <= k1 < k2 < n implies #[trigger] p[k1] < #[trigger] p[k2] by {
        let t1 = game_title(out[k1]);
        let t2 = game_title(out[k2]);
        assert(!lex_lt(t2, t1));
        lemma_lex_total(t1, t2);
        if t1 != t2 {
            assert(lex_lt(t1, t2));
            assert(out[k1] == inp[p[k1]]);
            assert(out[k2] == inp[p[k2]]);
            if p[k2] < p[k1] {
                assert(!lex_lt(game_title(inp[p[k1]]), game_title(inp[p[k2]])));
            }
            assert(p[k1] != p[k2]);
        }
    }
    lemma_increasing_permutation_is_identity(p, n);
    assert forall|k: int| 0 <= k < n implies #[trigger] out[k] == inp[k] by {
        assert(out[k] == inp[p[k]]);
    }
    assert(out =~= inp);
}

} // verus!
