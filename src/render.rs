use vstd::prelude::*;

use crate::sequent::Entailment;
use crate::symbols::ReprConf;
use crate::text::{push_repeat, push_str, string_of, sub_chars};
use crate::tree::{lemma_premise_smaller, Proof, ProofRepr};

verus! {

/// A block of text rows, the bottom row first, with the span of its bottom row that
/// holds the sequent: `bottom_width` columns from column `bottom_x`.
pub struct Grid {
    pub width: nat,
    pub height: nat,
    pub bottom_x: nat,
    pub bottom_width: nat,
    pub rows: Seq<Seq<char>>,
}

/// `n` spaces.
pub open spec fn blanks(n: nat) -> Seq<char> {
    Seq::new(n, |_i: int| ' ')
}

/// `n` fits in a `usize`.
pub open spec fn within(n: int) -> bool {
    0 <= n <= usize::MAX
}

impl Grid {
    /// There are `height` rows and the sequent's span lies inside the block.
    pub open spec fn wf(self) -> bool {
        &&& self.stacked()
        &&& self.bottom_x + self.bottom_width <= self.width
    }

    /// There are `height` rows, and the measures fit in a `usize`.
    pub open spec fn stacked(self) -> bool {
        &&& self.rows.len() == self.height
        &&& within(self.width as int)
        &&& within(self.height as int)
    }

    /// The block with nothing in it.
    pub open spec fn empty() -> Grid {
        Grid { width: 0, height: 0, bottom_x: 0, bottom_width: 0, rows: seq![] }
    }

    /// `n` more columns of spaces on the right; `None` where the width overflows.
    pub open spec fn extend_right(self, n: nat) -> Option<Grid> {
        if within((self.width + n) as int) {
            Some(
                Grid {
                    width: self.width + n,
                    rows: self.rows.map_values(|r: Seq<char>| r + blanks(n)),
                    ..self
                },
            )
        } else {
            None
        }
    }

    /// `n` more columns of spaces on the left, the sequent's span moving with them.
    pub open spec fn extend_left(self, n: nat) -> Option<Grid> {
        if within((self.width + n) as int) {
            Some(
                Grid {
                    width: self.width + n,
                    bottom_x: self.bottom_x + n,
                    rows: self.rows.map_values(|r: Seq<char>| blanks(n) + r),
                    ..self
                },
            )
        } else {
            None
        }
    }

    /// `n` more rows of spaces on top.
    pub open spec fn extend_up(self, n: nat) -> Option<Grid> {
        if within((self.height + n) as int) {
            Some(
                Grid {
                    height: self.height + n,
                    rows: self.rows + Seq::new(n, |_i: int| blanks(self.width)),
                    ..self
                },
            )
        } else {
            None
        }
    }

    /// `rhs` put to the right, bottoms aligned; the sequent span reaches from this
    /// block's span to the end of the span of `rhs`.
    pub open spec fn push_right(self, rhs: Grid) -> Option<Grid> {
        let a = if self.height < rhs.height {
            self.extend_up((rhs.height - self.height) as nat)
        } else {
            Some(self)
        };
        match a {
            None => None,
            Some(a) => {
                let bw = a.width - a.bottom_x + rhs.bottom_x + rhs.bottom_width;
                if within((a.width + rhs.width) as int) {
                    Some(
                        Grid {
                            width: a.width + rhs.width,
                            height: a.height,
                            bottom_x: a.bottom_x,
                            bottom_width: bw as nat,
                            rows: Seq::new(
                                a.height,
                                |i: int|
                                    a.rows[i] + if i < rhs.height {
                                        rhs.rows[i]
                                    } else {
                                        blanks(rhs.width)
                                    },
                            ),
                        },
                    )
                } else {
                    None
                }
            },
        }
    }

    /// A new bottom row `s`, `len` columns wide, the block widened to it or the row
    /// padded to the block.
    pub open spec fn write_down(self, s: Seq<char>, len: nat) -> Option<Grid> {
        let g = if len > self.width {
            self.extend_right((len - self.width) as nat)
        } else {
            Some(self)
        };
        match g {
            None => None,
            Some(g) => if within((g.height + 1) as int) {
                let row = if len < self.width {
                    s + blanks((self.width - len) as nat)
                } else {
                    s
                };
                Some(Grid { height: g.height + 1, rows: seq![row] + g.rows, ..g })
            } else {
                None
            },
        }
    }

    /// A new bottom row holding `s`, `len` columns wide, from column `at`; that span
    /// becomes the sequent's span.
    pub open spec fn write_down_at(self, s: Seq<char>, len: nat, at: nat) -> Option<Grid> {
        if within((len + at) as int) {
            Grid { bottom_x: at, bottom_width: len, ..self }.write_down(blanks(at) + s, len + at)
        } else {
            None
        }
    }
}

/// A block of text rows under construction.
pub struct ProofRender {
    pub width: usize,
    pub height: usize,
    pub bottom_x: usize,
    pub bottom_width: usize,
    pub buffer: Vec<Vec<char>>,
}

impl View for ProofRender {
    type V = Grid;

    open spec fn view(&self) -> Grid {
        Grid {
            width: self.width as nat,
            height: self.height as nat,
            bottom_x: self.bottom_x as nat,
            bottom_width: self.bottom_width as nat,
            rows: self.buffer@.map_values(|r: Vec<char>| r@),
        }
    }
}

/// A copy of `v` followed by `n` spaces.
fn padded_right(v: &Vec<char>, n: usize) -> (r: Vec<char>)
    ensures
        r@ == v@ + blanks(n as nat),
{
    let mut out = sub_chars(v, 0, v.len());
    assert(out@ == v@);
    push_repeat(&mut out, ' ', n);
    assert(Seq::new(n as nat, |_i: int| ' ') == blanks(n as nat));
    out
}

/// `n` spaces followed by a copy of `v`.
fn padded_left(v: &Vec<char>, n: usize) -> (r: Vec<char>)
    ensures
        r@ == blanks(n as nat) + v@,
{
    let mut out: Vec<char> = Vec::new();
    push_repeat(&mut out, ' ', n);
    let mut i: usize = 0;
    while i < v.len()
        invariant
            i <= v@.len(),
            out@ == blanks(n as nat) + v@.subrange(0, i as int),
        decreases v@.len() - i,
    {
        out.push(v[i]);
        i = i + 1;
        assert(out@ == blanks(n as nat) + v@.subrange(0, i as int));
    }
    assert(v@.subrange(0, v@.len() as int) == v@);
    out
}

/// A copy of `a` followed by a copy of `b`.
fn joined(a: &Vec<char>, b: &Vec<char>) -> (r: Vec<char>)
    ensures
        r@ == a@ + b@,
{
    let mut out = sub_chars(a, 0, a.len());
    assert(out@ == a@);
    let mut i: usize = 0;
    while i < b.len()
        invariant
            i <= b@.len(),
            out@ == a@ + b@.subrange(0, i as int),
        decreases b@.len() - i,
    {
        out.push(b[i]);
        i = i + 1;
        assert(out@ == a@ + b@.subrange(0, i as int));
    }
    assert(b@.subrange(0, b@.len() as int) == b@);
    out
}

impl ProofRender {
    /// The block with nothing in it.
    pub fn new() -> (r: Self)
        ensures
            r@ == Grid::empty(),
            r@.wf(),
    {
        let buffer: Vec<Vec<char>> = Vec::new();
        let r = ProofRender { width: 0, height: 0, bottom_x: 0, bottom_width: 0, buffer };
        assert(r@.rows =~= Seq::<Seq<char>>::empty());
        r
    }

    /// `n` more columns of spaces on the right.
    pub fn extend_right(self, n: usize) -> (r: Option<Self>)
        requires
            self@.stacked(),
        ensures
            match self@.extend_right(n as nat) {
                None => r is None,
                Some(g) => r matches Some(x) && x@ == g && g.stacked() && (self@.wf() ==> g.wf()),
            },
    {
        let width = match self.width.checked_add(n) {
            Some(w) => w,
            None => return None,
        };
        let ghost rows = self@.rows;
        let mut buffer: Vec<Vec<char>> = Vec::new();
        let mut i: usize = 0;
        while i < self.buffer.len()
            invariant
                i <= self.buffer@.len(),
                rows == self.buffer@.map_values(|r: Vec<char>| r@),
                buffer@.len() == i,
                forall|j: int| 0 <= j < i ==> (#[trigger] buffer@[j])@ == rows[j] + blanks(n as nat),
            decreases self.buffer@.len() - i,
        {
            buffer.push(padded_right(&self.buffer[i], n));
            i = i + 1;
        }
        let r = ProofRender { width, buffer, ..self };
        assert(r@.rows =~= rows.map_values(|r: Seq<char>| r + blanks(n as nat)));
        Some(r)
    }

    /// `n` more columns of spaces on the left.
    pub fn extend_left(self, n: usize) -> (r: Option<Self>)
        requires
            self@.wf(),
        ensures
            match self@.extend_left(n as nat) {
                None => r is None,
                Some(g) => r matches Some(x) && x@ == g && g.wf(),
            },
    {
        let width = match self.width.checked_add(n) {
            Some(w) => w,
            None => return None,
        };
        let ghost rows = self@.rows;
        let mut buffer: Vec<Vec<char>> = Vec::new();
        let mut i: usize = 0;
        while i < self.buffer.len()
            invariant
                i <= self.buffer@.len(),
                rows == self.buffer@.map_values(|r: Vec<char>| r@),
                buffer@.len() == i,
                forall|j: int| 0 <= j < i ==> (#[trigger] buffer@[j])@ == blanks(n as nat) + rows[j],
            decreases self.buffer@.len() - i,
        {
            buffer.push(padded_left(&self.buffer[i], n));
            i = i + 1;
        }
        let r = ProofRender { width, bottom_x: self.bottom_x + n, buffer, ..self };
        assert(r@.rows =~= rows.map_values(|r: Seq<char>| blanks(n as nat) + r));
        Some(r)
    }

    /// `n` more rows of spaces on top.
    pub fn extend_up(self, n: usize) -> (r: Option<Self>)
        requires
            self@.wf(),
        ensures
            match self@.extend_up(n as nat) {
                None => r is None,
                Some(g) => r matches Some(x) && x@ == g && g.wf(),
            },
    {
        let height = match self.height.checked_add(n) {
            Some(h) => h,
            None => return None,
        };
        let ghost rows = self@.rows;
        let mut buffer = self.buffer;
        let mut k: usize = 0;
        while k < n
            invariant
                k <= n,
                buffer@.map_values(|r: Vec<char>| r@) == rows + Seq::new(
                    k as nat,
                    |_i: int| blanks(self.width as nat),
                ),
            decreases n - k,
        {
            let mut row: Vec<char> = Vec::new();
            push_repeat(&mut row, ' ', self.width);
            assert(row@ =~= blanks(self.width as nat));
            let ghost before = buffer@;
            buffer.push(row);
            k = k + 1;
            proof {
                let w = blanks(self.width as nat);
                let prev = Seq::new((k - 1) as nat, |_i: int| blanks(self.width as nat));
                let next = Seq::new(k as nat, |_i: int| blanks(self.width as nat));
                assert(buffer@.map_values(|r: Vec<char>| r@) =~= before.map_values(
                    |r: Vec<char>| r@,
                ).push(w));
                assert(next =~= prev.push(w));
                assert((rows + prev).push(w) =~= rows + prev.push(w));
            }
        }
        let r = ProofRender { height, buffer, ..self };
        Some(r)
    }
}

impl ProofRender {
    /// `rhs` put to the right, bottoms aligned.
    pub fn push_right(self, rhs: &Self) -> (r: Option<Self>)
        requires
            self@.wf(),
            rhs@.wf(),
        ensures
            match self@.push_right(rhs@) {
                None => r is None,
                Some(g) => r matches Some(x) && x@ == g && g.wf(),
            },
    {
        let a = if self.height < rhs.height {
            let n = rhs.height - self.height;
            match self.extend_up(n) {
                None => return None,
                Some(a) => a,
            }
        } else {
            self
        };
        let width = match a.width.checked_add(rhs.width) {
            Some(w) => w,
            None => return None,
        };
        let bottom_width = a.width - a.bottom_x + rhs.bottom_x + rhs.bottom_width;
        let ghost ar = a@.rows;
        let ghost rr = rhs@.rows;
        let mut buffer: Vec<Vec<char>> = Vec::new();
        let mut i: usize = 0;
        while i < a.height
            invariant
                i <= a.height,
                a@.wf(),
                ar == a@.rows,
                rr == rhs@.rows,
                rhs@.wf(),
                buffer@.len() == i,
                forall|j: int|
                    0 <= j < i ==> (#[trigger] buffer@[j])@ == ar[j] + if j < rhs.height {
                        rr[j]
                    } else {
                        blanks(rhs.width as nat)
                    },
            decreases a.height - i,
        {
            let row = if i < rhs.height {
                joined(&a.buffer[i], &rhs.buffer[i])
            } else {
                let mut fill: Vec<char> = Vec::new();
                push_repeat(&mut fill, ' ', rhs.width);
                assert(fill@ =~= blanks(rhs.width as nat));
                joined(&a.buffer[i], &fill)
            };
            buffer.push(row);
            i = i + 1;
        }
        let r = ProofRender {
            width,
            height: a.height,
            bottom_x: a.bottom_x,
            bottom_width,
            buffer,
        };
        assert(r@.rows =~= Seq::new(
            a@.height,
            |i: int|
                ar[i] + if i < rhs@.height {
                    rr[i]
                } else {
                    blanks(rhs@.width)
                },
        ));
        Some(r)
    }

    /// A new bottom row `s`, `len` columns wide.
    pub fn write_down(self, s: Vec<char>, len: usize) -> (r: Option<Self>)
        requires
            self@.stacked(),
        ensures
            match self@.write_down(s@, len as nat) {
                None => r is None,
                Some(g) => r matches Some(x) && x@ == g && g.stacked() && g.width >= len && g.width
                    >= self@.width,
            },
    {
        let w = self.width;
        let (g, row) = if len > w {
            match self.extend_right(len - w) {
                None => return None,
                Some(g) => (g, s),
            }
        } else if len < w {
            let row = padded_right(&s, w - len);
            (self, row)
        } else {
            (self, s)
        };
        let height = match g.height.checked_add(1) {
            Some(h) => h,
            None => return None,
        };
        let ghost rows = g@.rows;
        let ghost rv = row@;
        let mut buffer = g.buffer;
        buffer.insert(0, row);
        let r = ProofRender { height, buffer, ..g };
        assert(r@.rows =~= seq![rv] + rows);
        Some(r)
    }

    /// A new bottom row holding `s`, `len` columns wide, from column `at`; that span
    /// becomes the sequent's span.
    pub fn write_down_at(self, s: &Vec<char>, len: usize, at: usize) -> (r: Option<Self>)
        requires
            self@.stacked(),
        ensures
            match self@.write_down_at(s@, len as nat, at as nat) {
                None => r is None,
                Some(g) => r matches Some(x) && x@ == g && g.wf(),
            },
    {
        let total = match len.checked_add(at) {
            Some(t) => t,
            None => return None,
        };
        let padded = padded_left(s, at);
        let g = ProofRender { bottom_x: at, bottom_width: len, ..self };
        assert(g@ == (Grid { bottom_x: at as nat, bottom_width: len as nat, ..self@ }));
        g.write_down(padded, total)
    }
}

/// The width of a sequent's text without escape codes.
pub open spec fn text_width(s: Entailment, conf: ReprConf) -> nat {
    s.shown(ReprConf { formated: false, ..conf }).len()
}

/// `n` copies of the inference line character.
pub open spec fn rule_line(n: nat) -> Seq<char> {
    Seq::new(n, |_i: int| '\u{2500}')
}

/// The block of the node `p` over the row `r` of its premises' blocks. The premises'
/// row and the sequent are centred on each other; between them runs the inference line,
/// as wide as both, labelled on its right with the rule's symbol. A goal without a
/// rule is its sequent alone.
#[verifier::opaque]
pub open spec fn finish(p: Proof, r: Grid, conf: ReprConf) -> Option<Grid> {
    let text = p.sequent@.shown(conf);
    let sw = text_width(p.sequent@, conf);
    match p.rule {
        None => Some(Grid { width: sw, height: 1, bottom_x: 0, bottom_width: sw, rows: seq![text] }),
        Some(rule) => {
            let dr = 2 * r.bottom_x + r.bottom_width;
            let dc = if dr >= sw {
                dr
            } else {
                sw
            };
            let rx = ((dc - dr) / 2) as nat;
            let sx = ((dc - sw) / 2) as nat;
            match r.extend_left(rx) {
                None => None,
                Some(r1) => {
                    let left = if r1.bottom_x <= sx {
                        r1.bottom_x
                    } else {
                        sx
                    };
                    let right = if r1.bottom_x + r1.bottom_width >= sx + sw {
                        r1.bottom_x + r1.bottom_width
                    } else {
                        sx + sw
                    };
                    let lw = (right - left) as nat;
                    let label = rule.symbol().spelling(conf.unicode);
                    if within(right as int) && within((lw + label.len()) as int) {
                        match r1.write_down_at(rule_line(lw) + label, lw + label.len(), left) {
                            None => None,
                            Some(r2) => r2.write_down_at(text, sw, sx),
                        }
                    } else {
                        None
                    }
                },
            }
        },
    }
}

/// The blocks of the first `k` premises of `p`, side by side, four columns apart.
#[verifier::opaque]
pub open spec fn arranged(p: Proof, k: int, conf: ReprConf) -> Option<Grid>
    decreases p, k,
    via arranged_decreases
{
    if k <= 0 || k > p.premises().len() {
        Some(Grid::empty())
    } else {
        let c = p.premises()[k - 1];
        match arranged(p, k - 1, conf) {
            None => None,
            Some(acc) => match arranged(c, c.premises().len() as int, conf) {
                None => None,
                Some(cr) => match finish(c, cr, conf) {
                    None => None,
                    Some(cg) => if k == 1 {
                        Some(cg)
                    } else {
                        match acc.extend_right(4) {
                            None => None,
                            Some(a2) => a2.push_right(cg),
                        }
                    },
                },
            },
        }
    }
}

#[via_fn]
proof fn arranged_decreases(p: Proof, k: int, conf: ReprConf) {
    if 0 < k <= p.premises().len() {
        lemma_premise_smaller(p, k - 1);
    }
}

/// Once the row of premises overflows, it stays overflowed.
proof fn lemma_arranged_stays_none(p: Proof, k: int, j: int, conf: ReprConf)
    requires
        0 < k <= j <= p.premises().len(),
        arranged(p, k, conf) is None,
    ensures
        arranged(p, j, conf) is None,
    decreases j - k,
{
    if k < j {
        lemma_arranged_stays_none(p, k, j - 1, conf);
        reveal(arranged);
    }
}

/// The block that draws the proof tree `p`: the conclusion at the bottom, each rule's
/// premises above its line. `None` where a measure does not fit in a `usize`.
pub open spec fn layout(p: Proof, conf: ReprConf) -> Option<Grid> {
    match arranged(p, p.premises().len() as int, conf) {
        None => None,
        Some(r) => finish(p, r, conf),
    }
}

/// The rows as printed, the top one first, each ended by a newline.
pub open spec fn grid_text(rows: Seq<Seq<char>>) -> Seq<char>
    decreases rows.len(),
{
    if rows.len() == 0 {
        seq![]
    } else {
        rows.last() + seq!['\n'] + grid_text(rows.drop_last())
    }
}

/// The block that draws the proof tree `p`.
fn render_proof(p: &Proof, conf: ReprConf) -> (r: Option<ProofRender>)
    ensures
        match layout(*p, conf) {
            None => r is None,
            Some(g) => r matches Some(x) && x@ == g && g.wf(),
        },
    decreases p,
{
    let rule = match &p.rule {
        None => {
            let sr = p.sequent.repr_conf(conf);
            let sw = sr.len();
            let mut buffer: Vec<Vec<char>> = Vec::new();
            buffer.push(sr.chars());
            let r = ProofRender { width: sw, height: 1, bottom_x: 0, bottom_width: sw, buffer };
            assert(r@.rows =~= seq![p.sequent@.shown(conf)]);
            proof {
                reveal(finish);
                reveal(arranged);
            }
            return Some(r);
        },
        Some(rule) => rule,
    };
    let ps = rule.hypotheses();
    let mut acc = ProofRender::new();
    let mut k: usize = 0;
    proof {
        reveal(arranged);
    }
    while k < ps.len()
        invariant
            k <= ps@.len(),
            ps@ == p.premises(),
            p.rule == Some(*rule),
            arranged(*p, k as int, conf) == Some(acc@),
            acc@.wf(),
        decreases ps@.len() - k,
    {
        proof {
            lemma_premise_smaller(*p, k as int);
            assert(ps@[k as int] == p.premises()[k as int]);
            reveal(arranged);
        }
        let child = match render_proof(&ps[k], conf) {
            None => {
                proof {
                    reveal(arranged);
                    assert(arranged(*p, k + 1, conf) is None);
                    lemma_arranged_stays_none(*p, k + 1, ps@.len() as int, conf);
                }
                return None;
            },
            Some(c) => c,
        };
        if k == 0 {
            acc = child;
        } else {
            acc = match acc.extend_right(4) {
                None => {
                    proof {
                        lemma_arranged_stays_none(*p, k + 1, ps@.len() as int, conf);
                    }
                    return None;
                },
                Some(a) => a,
            };
            acc = match acc.push_right(&child) {
                None => {
                    proof {
                        lemma_arranged_stays_none(*p, k + 1, ps@.len() as int, conf);
                    }
                    return None;
                },
                Some(a) => a,
            };
        }
        k = k + 1;
    }
    ProofRepr::finish_node(p, acc, conf)
}

impl<'a> ProofRepr<'a> {
    /// The block that draws the proof.
    pub fn render(&self) -> (r: Option<ProofRender>)
        ensures
            match layout(*self.proof, self.conf) {
                None => r is None,
                Some(g) => r matches Some(x) && x@ == g && g.wf(),
            },
    {
        render_proof(self.proof, self.conf)
    }

    /// The block of the proved node `p` over the row `r` of its premises' blocks.
    #[verifier::rlimit(60)]
    fn finish_node(p: &Proof, r: ProofRender, conf: ReprConf) -> (out: Option<ProofRender>)
        requires
            p.rule is Some,
            r@.wf(),
        ensures
            match finish(*p, r@, conf) {
                None => out is None,
                Some(g) => out matches Some(x) && x@ == g && g.wf(),
            },
    {
        proof {
            reveal(finish);
        }
        let sym = match &p.rule {
            Some(rule) => rule.get_symbol(),
            None => return None,
        };
        let sr = p.sequent.repr_conf(conf);
        let sw = sr.len();
        let dr: u128 = 2 * (r.bottom_x as u128) + (r.bottom_width as u128);
        let (rx, sx): (usize, usize) = if dr >= sw as u128 {
            (0, ((dr - sw as u128) / 2) as usize)
        } else {
            (((sw as u128 - dr) / 2) as usize, 0)
        };
        let r1 = match r.extend_left(rx) {
            None => return None,
            Some(r1) => r1,
        };
        let left = if r1.bottom_x <= sx {
            r1.bottom_x
        } else {
            sx
        };
        let span_end = r1.bottom_x + r1.bottom_width;
        let text_end = match sx.checked_add(sw) {
            Some(e) => e,
            None => return None,
        };
        let right = if span_end >= text_end {
            span_end
        } else {
            text_end
        };
        let lw = right - left;
        let label_len = sym.len(conf.unicode);
        let line_len = match lw.checked_add(label_len) {
            Some(n) => n,
            None => return None,
        };
        let mut line: Vec<char> = Vec::new();
        push_repeat(&mut line, '\u{2500}', lw);
        push_str(&mut line, sym.repr(conf.unicode));
        assert(line@ =~= rule_line(lw as nat) + sym.spelling(conf.unicode));
        let r2 = match r1.write_down_at(&line, line_len, left) {
            None => return None,
            Some(r2) => r2,
        };
        r2.write_down_at(&sr.chars(), sw, sx)
    }

    /// The drawing of the proof, the top row first, each row ended by a newline; `None`
    /// where a measure does not fit in a `usize`.
    pub fn to_string(&self) -> (r: Option<String>)
        ensures
            match layout(*self.proof, self.conf) {
                None => r is None,
                Some(g) => r matches Some(t) && t@ == grid_text(g.rows),
            },
    {
        let g = match self.render() {
            None => return None,
            Some(g) => g,
        };
        let mut out: Vec<char> = Vec::new();
        let mut y: usize = g.buffer.len();
        let ghost rows = g@.rows;
        assert(rows.subrange(0, y as int) == rows);
        while y > 0
            invariant
                y <= g.buffer@.len(),
                rows == g.buffer@.map_values(|r: Vec<char>| r@),
                grid_text(rows) == out@ + grid_text(rows.subrange(0, y as int)),
            decreases y,
        {
            let ghost before = out@;
            let row = &g.buffer[y - 1];
            let mut i: usize = 0;
            while i < row.len()
                invariant
                    i <= row@.len(),
                    out@ == before + row@.subrange(0, i as int),
                decreases row@.len() - i,
            {
                out.push(row[i]);
                i = i + 1;
                assert(out@ == before + row@.subrange(0, i as int));
            }
            out.push('\n');
            proof {
                let sub = rows.subrange(0, y as int);
                assert(row@.subrange(0, row@.len() as int) == row@);
                assert(sub.last() == row@);
                assert(sub.drop_last() == rows.subrange(0, y - 1));
                assert(out@ == before + (row@ + seq!['\n']));
            }
            y = y - 1;
        }
        assert(rows.subrange(0, 0).len() == 0);
        assert(out@ + Seq::<char>::empty() == out@);
        Some(string_of(out.as_slice()))
    }
}

} // verus!
