//! The connection manager: which serial ports are connected, which are in
//! quarantine, and what the scanner and the per-port listeners decide.

use vstd::prelude::*;
use vstd::string::*;
use crate::texto::{igual, textos};
use crate::tempo::{decorrido, idade};

verus! {

/// How long a port stays in quarantine, in milliseconds.
pub const TEMPO_NA_LISTA_NEGRA: u64 = 10000;

/// How long a connection may stay without an accepted message, in
/// milliseconds.
pub const TEMPO_MAX_SEM_MSG: u64 = 3000;

/// What a listener decides on an event.
#[derive(Clone, Copy, PartialEq, Eq, Debug)]
pub enum Desfecho {
    /// The listener goes on.
    Continua,
    /// The listener ends because it has been silent for too long.
    Silencio,
    /// The listener ends because a read failed.
    Falha,
    /// The listener ends because it was asked to.
    Fim,
}

/// What a `Comm` stands for in contracts.
pub struct CommV {
    /// The ports that have a listener, in the order in which they got one.
    pub conectadas: Seq<Seq<char>>,
    /// The ports in quarantine, each with the instant at which it entered.
    pub lista_negra: Seq<(Seq<char>, u64)>,
}

/// Whether a quarantine that began at `t` is over at `agora`.
pub open spec fn vencida(t: u64, agora: u64) -> bool {
    idade(t, agora) >= TEMPO_NA_LISTA_NEGRA
}

/// Whether `p` is in the quarantine list `l`.
pub open spec fn bloqueada(l: Seq<(Seq<char>, u64)>, p: Seq<char>) -> bool {
    exists|i: int| 0 <= i < l.len() && (#[trigger] l[i]).0 == p
}

/// The quarantine list `l` without the entries that are over at `agora`.
pub open spec fn podada(l: Seq<(Seq<char>, u64)>, agora: u64) -> Seq<(Seq<char>, u64)> {
    l.filter(|e: (Seq<char>, u64)| !vencida(e.1, agora))
}

/// The place of the entry of `p` in the quarantine list `l`.
pub open spec fn lugar_de(l: Seq<(Seq<char>, u64)>, p: Seq<char>) -> int {
    choose|i: int| 0 <= i < l.len() && (#[trigger] l[i]).0 == p
}

/// The quarantine list `l` with `p` quarantined from `agora` on: an entry
/// that `p` already has is given the new instant, in its place; otherwise
/// an entry is added at the end.
pub open spec fn marcada(
    l: Seq<(Seq<char>, u64)>,
    p: Seq<char>,
    agora: u64,
) -> Seq<(Seq<char>, u64)> {
    if bloqueada(l, p) {
        l.update(lugar_de(l, p), (p, agora))
    } else {
        l.push((p, agora))
    }
}

/// The list `s` without the port `p`.
pub open spec fn retirada(s: Seq<Seq<char>>, p: Seq<char>) -> Seq<Seq<char>> {
    if s.contains(p) {
        s.remove(s.index_of(p))
    } else {
        s
    }
}

/// The ports among `disponiveis` that get a listener: those that are neither
/// connected nor in quarantine, each once, in the order in which they are
/// listed.
pub open spec fn novas_de(
    conectadas: Seq<Seq<char>>,
    lista_negra: Seq<(Seq<char>, u64)>,
    disponiveis: Seq<Seq<char>>,
) -> Seq<Seq<char>>
    decreases disponiveis.len(),
{
    if disponiveis.len() == 0 {
        Seq::empty()
    } else {
        let antes = novas_de(conectadas, lista_negra, disponiveis.drop_last());
        let p = disponiveis.last();
        if conectadas.contains(p) || antes.contains(p) || bloqueada(lista_negra, p) {
            antes
        } else {
            antes.push(p)
        }
    }
}

impl CommV {
    /// Whether `p` has a listener.
    pub open spec fn ativa(self, p: Seq<char>) -> bool {
        self.conectadas.contains(p)
    }

    /// Whether `p` is in quarantine.
    pub open spec fn em_quarentena(self, p: Seq<char>) -> bool {
        bloqueada(self.lista_negra, p)
    }

    /// What holds of the table at all times: no port is connected twice or
    /// quarantined twice, and none is both connected and in quarantine.
    pub open spec fn coerente(self) -> bool {
        &&& self.conectadas.no_duplicates()
        &&& forall|i: int, j: int|
            0 <= i < j < self.lista_negra.len() ==> (#[trigger] self.lista_negra[i]).0 != (
            #[trigger] self.lista_negra[j]).0
        &&& forall|i: int, j: int|
            0 <= i < self.conectadas.len() && 0 <= j < self.lista_negra.len()
                ==> #[trigger] self.conectadas[i] != (#[trigger] self.lista_negra[j]).0
    }

    /// The ports that a scan at `agora` gives a listener when `disponiveis`
    /// are present.
    pub open spec fn novas(self, disponiveis: Seq<Seq<char>>, agora: u64) -> Seq<Seq<char>> {
        novas_de(self.conectadas, podada(self.lista_negra, agora), disponiveis)
    }

    /// The table after a scan at `agora` with `disponiveis` present:
    /// quarantines that are over are lifted and the new ports are connected.
    pub open spec fn apos_varredura(self, disponiveis: Seq<Seq<char>>, agora: u64) -> CommV {
        CommV {
            conectadas: self.conectadas + self.novas(disponiveis, agora),
            lista_negra: podada(self.lista_negra, agora),
        }
    }

    /// The table after the listener of `p` has been taken down at `agora`
    /// and `p` sent to quarantine. A port without a listener changes
    /// nothing.
    pub open spec fn apos_quarentena(self, p: Seq<char>, agora: u64) -> CommV {
        if self.ativa(p) {
            CommV {
                conectadas: retirada(self.conectadas, p),
                lista_negra: self.lista_negra.push((p, agora)),
            }
        } else {
            self
        }
    }

    /// The table after an attempt to open `p` has failed at `agora`: `p`
    /// loses its reservation, if it had one, and is quarantined from
    /// `agora` on, whether or not it had one.
    pub open spec fn apos_falha_de_abertura(self, p: Seq<char>, agora: u64) -> CommV {
        CommV {
            conectadas: retirada(self.conectadas, p),
            lista_negra: marcada(self.lista_negra, p, agora),
        }
    }

    /// The table after the listener of `p` has been taken down without
    /// quarantine, so that `p` may be tried again at once.
    pub open spec fn apos_liberacao(self, p: Seq<char>) -> CommV {
        CommV { conectadas: retirada(self.conectadas, p), lista_negra: self.lista_negra }
    }

    /// The table after the listener of `p` has decided `d` at `agora`:
    /// silence sends the port to quarantine, a failed read frees it at once,
    /// and nothing else touches the table.
    pub open spec fn apos_desfecho(self, p: Seq<char>, d: Desfecho, agora: u64) -> CommV {
        match d {
            Desfecho::Silencio => self.apos_quarentena(p, agora),
            Desfecho::Falha => self.apos_liberacao(p),
            _ => self,
        }
    }
}

/// Taking a port out of a list without repetitions removes exactly that
/// port: the others stay, in their order, and the list stays free of
/// repetitions.
pub proof fn lema_retirada(s: Seq<Seq<char>>, p: Seq<char>)
    requires
        s.no_duplicates(),
    ensures
        retirada(s, p).no_duplicates(),
        !retirada(s, p).contains(p),
        forall|q: Seq<char>| q != p ==> (#[trigger] retirada(s, p).contains(q) <==> s.contains(q)),
        forall|i: int| 0 <= i < s.len() && s[i] == p ==> retirada(s, p) == s.remove(i),
{
    if s.contains(p) {
        let k = s.index_of(p);
        let r = s.remove(k);
        assert forall|i: int, j: int| 0 <= i < r.len() && 0 <= j < r.len() && i != j implies r[i]
            != r[j] by {
            let a = if i < k { i } else { i + 1 };
            let b = if j < k { j } else { j + 1 };
            assert(s[a] != s[b]);
        }
        assert forall|i: int| 0 <= i < r.len() implies r[i] != p by {
            let a = if i < k { i } else { i + 1 };
            assert(s[a] != s[k]);
        }
        assert forall|q: Seq<char>| q != p implies (#[trigger] r.contains(q) <==> s.contains(
            q,
        )) by {
            if r.contains(q) {
                let i = choose|i: int| 0 <= i < r.len() && r[i] == q;
                let a = if i < k { i } else { i + 1 };
                assert(s[a] == q);
            }
            if s.contains(q) {
                let a = choose|a: int| 0 <= a < s.len() && s[a] == q;
                let i = if a < k { a } else { a - 1 };
                assert(r[i] == q);
            }
        }
    }
}

/// Lifting the quarantines that are over keeps the others in order: every
/// entry that stays was there before and is not over, every entry that is
/// not over stays, and no port appears twice if none did.
pub proof fn lema_podada(l: Seq<(Seq<char>, u64)>, agora: u64)
    ensures
        podada(l, agora).len() <= l.len(),
        forall|i: int|
            0 <= i < podada(l, agora).len() ==> l.contains(#[trigger] podada(l, agora)[i])
                && !vencida(podada(l, agora)[i].1, agora),
        forall|i: int|
            0 <= i < l.len() && !vencida(l[i].1, agora) ==> podada(l, agora).contains(
                #[trigger] l[i],
            ),
        (forall|i: int, j: int| 0 <= i < j < l.len() ==> (#[trigger] l[i]).0 != (#[trigger] l[j]).0)
            ==> (forall|i: int, j: int|
            0 <= i < j < podada(l, agora).len() ==> (#[trigger] podada(l, agora)[i]).0 != (
            #[trigger] podada(l, agora)[j]).0),
    decreases l.len(),
{
    reveal(Seq::filter);
    if l.len() > 0 {
        let antes = l.drop_last();
        lema_podada(antes, agora);
        let fa = podada(antes, agora);
        let f = podada(l, agora);
        assert forall|i: int| 0 <= i < f.len() implies l.contains(#[trigger] f[i]) && !vencida(
            f[i].1,
            agora,
        ) by {
            if i < fa.len() {
                assert(antes.contains(fa[i]));
                let k = choose|k: int| 0 <= k < antes.len() && antes[k] == fa[i];
                assert(l[k] == fa[i]);
            } else {
                assert(f[i] == l[l.len() - 1]);
            }
        }
        assert forall|i: int| 0 <= i < l.len() && !vencida(l[i].1, agora) implies f.contains(
            #[trigger] l[i],
        ) by {
            if i < antes.len() {
                assert(antes[i] == l[i]);
                assert(fa.contains(antes[i]));
                let k = choose|k: int| 0 <= k < fa.len() && fa[k] == antes[i];
                assert(f[k] == l[i]);
            } else {
                assert(f[f.len() - 1] == l[i]);
            }
        }
        if forall|i: int, j: int| 0 <= i < j < l.len() ==> (#[trigger] l[i]).0 != (#[trigger] l[j]).0 {
            assert forall|i: int, j: int| 0 <= i < j < antes.len() implies (#[trigger] antes[i]).0
                != (#[trigger] antes[j]).0 by {
                assert(l[i].0 != l[j].0);
            }
            assert forall|i: int, j: int| 0 <= i < j < f.len() implies (#[trigger] f[i]).0 != (
            #[trigger] f[j]).0 by {
                if j == fa.len() {
                    assert(antes.contains(fa[i]));
                    let k = choose|k: int| 0 <= k < antes.len() && antes[k] == fa[i];
                    assert(l[k].0 != l[l.len() - 1].0);
                } else {
                    assert(fa[i].0 != fa[j].0);
                }
            }
        }
    }
}

/// The ports that get a listener are exactly the listed ports that are
/// neither connected nor in quarantine, and none of them appears twice.
pub proof fn lema_novas(
    conectadas: Seq<Seq<char>>,
    lista_negra: Seq<(Seq<char>, u64)>,
    disponiveis: Seq<Seq<char>>,
)
    ensures
        novas_de(conectadas, lista_negra, disponiveis).no_duplicates(),
        forall|p: Seq<char>| #[trigger]
            novas_de(conectadas, lista_negra, disponiveis).contains(p) <==> (disponiveis.contains(
                p,
            ) && !conectadas.contains(p) && !bloqueada(lista_negra, p)),
    decreases disponiveis.len(),
{
    let n = novas_de(conectadas, lista_negra, disponiveis);
    if disponiveis.len() > 0 {
        let d = disponiveis.drop_last();
        let antes = novas_de(conectadas, lista_negra, d);
        let u = disponiveis.last();
        lema_novas(conectadas, lista_negra, d);
        assert forall|p: Seq<char>| #[trigger]
            n.contains(p) <==> (disponiveis.contains(p) && !conectadas.contains(p) && !bloqueada(
                lista_negra,
                p,
            )) by {
            if n.contains(p) {
                let i = choose|i: int| 0 <= i < n.len() && n[i] == p;
                if i < antes.len() {
                    assert(antes[i] == p);
                    assert(antes.contains(p));
                    assert(d.contains(p));
                    let k = choose|k: int| 0 <= k < d.len() && d[k] == p;
                    assert(disponiveis[k] == p);
                } else {
                    assert(p == u);
                    assert(disponiveis[disponiveis.len() - 1] == p);
                }
            }
            if disponiveis.contains(p) && !conectadas.contains(p) && !bloqueada(lista_negra, p) {
                let k = choose|k: int| 0 <= k < disponiveis.len() && disponiveis[k] == p;
                if k < d.len() {
                    assert(d[k] == p);
                    assert(d.contains(p));
                    assert(antes.contains(p));
                    let i = choose|i: int| 0 <= i < antes.len() && antes[i] == p;
                    assert(n[i] == p);
                } else {
                    if antes.contains(p) {
                        let i = choose|i: int| 0 <= i < antes.len() && antes[i] == p;
                        assert(n[i] == p);
                    } else {
                        assert(n[n.len() - 1] == p);
                    }
                }
            }
        }
        assert forall|i: int, j: int| 0 <= i < n.len() && 0 <= j < n.len() && i != j implies n[i]
            != n[j] by {
            if i < antes.len() && j < antes.len() {
                assert(antes[i] != antes[j]);
            } else if i < antes.len() {
                assert(antes.contains(antes[i]));
            } else {
                assert(antes.contains(antes[j]));
            }
        }
    }
}

/// Every transition of the table keeps it coherent.
pub proof fn lema_coerencia(c: CommV, p: Seq<char>, disponiveis: Seq<Seq<char>>, agora: u64)
    requires
        c.coerente(),
    ensures
        c.apos_liberacao(p).coerente(),
        c.apos_quarentena(p, agora).coerente(),
        c.apos_falha_de_abertura(p, agora).coerente(),
        c.apos_varredura(disponiveis, agora).coerente(),
{
    lema_retirada(c.conectadas, p);
    let r = retirada(c.conectadas, p);
    assert forall|i: int, j: int|
        0 <= i < r.len() && 0 <= j < c.lista_negra.len() implies #[trigger] r[i] != (
    #[trigger] c.lista_negra[j]).0 by {
        assert(r.contains(r[i]));
        assert(c.conectadas.contains(r[i]));
        let k = choose|k: int| 0 <= k < c.conectadas.len() && c.conectadas[k] == r[i];
        assert(c.conectadas[k] != c.lista_negra[j].0);
    }
    assert(c.apos_liberacao(p).coerente());
    let m = marcada(c.lista_negra, p, agora);
    assert forall|i: int, j: int| 0 <= i < j < m.len() implies (#[trigger] m[i]).0 != (
    #[trigger] m[j]).0 by {
        if bloqueada(c.lista_negra, p) {
            assert(c.lista_negra[i].0 != c.lista_negra[j].0);
        } else if j < c.lista_negra.len() {
            assert(c.lista_negra[i].0 != c.lista_negra[j].0);
        } else {
            assert(c.lista_negra[i].0 != p);
        }
    }
    assert forall|i: int, j: int| 0 <= i < r.len() && 0 <= j < m.len() implies #[trigger] r[i] != (
    #[trigger] m[j]).0 by {
        assert(r.contains(r[i]));
        if j < c.lista_negra.len() && m[j].0 == c.lista_negra[j].0 {
            assert(r[i] != c.lista_negra[j].0);
        }
    }
    assert(c.apos_falha_de_abertura(p, agora).coerente());
    if c.ativa(p) {
        let k = choose|k: int| 0 <= k < c.conectadas.len() && c.conectadas[k] == p;
        let l = c.lista_negra.push((p, agora));
        assert forall|i: int, j: int| 0 <= i < j < l.len() implies (#[trigger] l[i]).0 != (
        #[trigger] l[j]).0 by {
            if j < c.lista_negra.len() {
                assert(c.lista_negra[i].0 != c.lista_negra[j].0);
            } else {
                assert(c.conectadas[k] != c.lista_negra[i].0);
            }
        }
        assert forall|i: int, j: int| 0 <= i < r.len() && 0 <= j < l.len() implies #[trigger] r[i]
            != (#[trigger] l[j]).0 by {
            if j < c.lista_negra.len() {
                assert(r[i] != c.lista_negra[j].0);
            } else {
                assert(r.contains(r[i]));
            }
        }
    }
    assert(c.apos_quarentena(p, agora).coerente());
    lema_podada(c.lista_negra, agora);
    let pl = podada(c.lista_negra, agora);
    lema_novas(c.conectadas, pl, disponiveis);
    let n = c.novas(disponiveis, agora);
    let con = c.conectadas + n;
    assert forall|i: int, j: int| 0 <= i < con.len() && 0 <= j < con.len() && i != j implies con[i]
        != con[j] by {
        let m = c.conectadas.len() as int;
        if i < m && j < m {
            assert(c.conectadas[i] != c.conectadas[j]);
        } else if i >= m && j >= m {
            assert(n[i - m] != n[j - m]);
        } else if i < m {
            assert(n.contains(n[j - m]));
            assert(c.conectadas.contains(c.conectadas[i]));
        } else {
            assert(n.contains(n[i - m]));
            assert(c.conectadas.contains(c.conectadas[j]));
        }
    }
    assert forall|i: int, j: int| 0 <= i < con.len() && 0 <= j < pl.len() implies #[trigger] con[i]
        != (#[trigger] pl[j]).0 by {
        let m = c.conectadas.len() as int;
        if i < m {
            assert(c.lista_negra.contains(pl[j]));
            let k = choose|k: int| 0 <= k < c.lista_negra.len() && c.lista_negra[k] == pl[j];
            assert(c.conectadas[i] != c.lista_negra[k].0);
        } else {
            assert(n.contains(n[i - m]));
            assert(!bloqueada(pl, n[i - m]));
        }
    }
    assert(c.apos_varredura(disponiveis, agora).coerente());
}

/// A port in quarantine gets no listener while its quarantine lasts. A scan
/// made before the quarantine is over neither connects the port nor lifts
/// the quarantine, whatever ports are present; and taking down any listener,
/// with or without quarantine, leaves the port quarantined as it was.
pub proof fn lema_quarentena_respeitada(
    c: CommV,
    p: Seq<char>,
    t: u64,
    disponiveis: Seq<Seq<char>>,
    agora: u64,
    outra: Seq<char>,
)
    requires
        c.coerente(),
        c.lista_negra.contains((p, t)),
        !vencida(t, agora),
    ensures
        !c.ativa(p),
        !c.novas(disponiveis, agora).contains(p),
        !c.apos_varredura(disponiveis, agora).ativa(p),
        c.apos_varredura(disponiveis, agora).lista_negra.contains((p, t)),
        !c.apos_quarentena(outra, agora).ativa(p),
        c.apos_quarentena(outra, agora).lista_negra.contains((p, t)),
        !c.apos_liberacao(outra).ativa(p),
        c.apos_liberacao(outra).lista_negra.contains((p, t)),
        !c.apos_falha_de_abertura(outra, agora).ativa(p),
        c.apos_falha_de_abertura(outra, agora).em_quarentena(p),
        outra != p ==> c.apos_falha_de_abertura(outra, agora).lista_negra.contains((p, t)),
{
    let k = choose|k: int| 0 <= k < c.lista_negra.len() && c.lista_negra[k] == (p, t);
    if c.ativa(p) {
        let i = choose|i: int| 0 <= i < c.conectadas.len() && c.conectadas[i] == p;
        assert(c.conectadas[i] != c.lista_negra[k].0);
    }
    lema_podada(c.lista_negra, agora);
    let pl = podada(c.lista_negra, agora);
    assert(pl.contains(c.lista_negra[k]));
    let m = choose|m: int| 0 <= m < pl.len() && pl[m] == (p, t);
    assert(pl[m].0 == p);
    assert(bloqueada(pl, p));
    lema_novas(c.conectadas, pl, disponiveis);
    let n = c.novas(disponiveis, agora);
    let con = c.conectadas + n;
    if con.contains(p) {
        let i = choose|i: int| 0 <= i < con.len() && con[i] == p;
        if i < c.conectadas.len() {
            assert(c.conectadas[i] == p);
            assert(c.conectadas.contains(p));
        } else {
            assert(n[i - c.conectadas.len()] == p);
            assert(n.contains(p));
        }
    }
    lema_retirada(c.conectadas, outra);
    if outra != p {
        assert(!retirada(c.conectadas, outra).contains(p));
    }
    if c.ativa(outra) {
        assert(c.lista_negra.push((outra, agora))[k] == (p, t));
    }
    let m = marcada(c.lista_negra, outra, agora);
    if outra != p {
        assert(m[k] == (p, t));
    } else {
        assert(m[k].0 == p) by {
            if lugar_de(c.lista_negra, p) != k {
                let j = lugar_de(c.lista_negra, p);
                if j < k {
                    assert(c.lista_negra[j].0 != c.lista_negra[k].0);
                } else {
                    assert(c.lista_negra[k].0 != c.lista_negra[j].0);
                }
            }
        }
    }
    assert(m[k].0 == p);
}

/// Taking down a silent listener frees its port and quarantines it exactly
/// once: the port is no longer connected, one entry with the instant of the
/// take-down has been added, and no other entry names the port. Taking the
/// same port down again, by either path, changes nothing; and the take-down
/// after a failed read never touches the quarantine list.
pub proof fn lema_quarentena_unica(c: CommV, p: Seq<char>, agora: u64, depois: u64)
    requires
        c.coerente(),
        c.ativa(p),
    ensures
        !c.em_quarentena(p),
        !c.apos_quarentena(p, agora).ativa(p),
        c.apos_quarentena(p, agora).lista_negra == c.lista_negra.push((p, agora)),
        forall|i: int|
            0 <= i < c.apos_quarentena(p, agora).lista_negra.len() && (#[trigger] c.apos_quarentena(
                p,
                agora,
            ).lista_negra[i]).0 == p ==> i == c.lista_negra.len(),
        c.apos_quarentena(p, agora).apos_quarentena(p, depois) == c.apos_quarentena(p, agora),
        c.apos_quarentena(p, agora).apos_liberacao(p) == c.apos_quarentena(p, agora),
        c.apos_liberacao(p).lista_negra == c.lista_negra,
        c.apos_desfecho(p, Desfecho::Silencio, agora) == c.apos_quarentena(p, agora),
        c.apos_desfecho(p, Desfecho::Falha, agora).lista_negra == c.lista_negra,
{
    let d = c.apos_quarentena(p, agora);
    let k = choose|k: int| 0 <= k < c.conectadas.len() && c.conectadas[k] == p;
    lema_retirada(c.conectadas, p);
    if c.em_quarentena(p) {
        let j = choose|j: int| 0 <= j < c.lista_negra.len() && (#[trigger] c.lista_negra[j]).0 == p;
        assert(c.conectadas[k] != c.lista_negra[j].0);
    }
    assert forall|i: int| 0 <= i < d.lista_negra.len() && (#[trigger] d.lista_negra[i]).0
        == p implies i == c.lista_negra.len() by {
        if i < c.lista_negra.len() {
            assert(c.conectadas[k] != c.lista_negra[i].0);
        }
    }
}

/// A failed open always quarantines. Afterwards the port is not connected
/// and has exactly one quarantine entry, with the instant of the failure.
/// A port that had no entry gets one at the end of the list, whether or not
/// it was connected. The entries of the other ports stay as they were, and
/// so do the other connections.
pub proof fn lema_falha_sempre_quarentena(c: CommV, p: Seq<char>, agora: u64, outra: Seq<char>)
    requires
        c.coerente(),
    ensures
        !c.apos_falha_de_abertura(p, agora).ativa(p),
        c.apos_falha_de_abertura(p, agora).lista_negra.contains((p, agora)),
        forall|i: int, j: int|
            0 <= i < c.apos_falha_de_abertura(p, agora).lista_negra.len() && 0 <= j
                < c.apos_falha_de_abertura(p, agora).lista_negra.len() && (
            #[trigger] c.apos_falha_de_abertura(p, agora).lista_negra[i]).0 == p && (
            #[trigger] c.apos_falha_de_abertura(p, agora).lista_negra[j]).0 == p ==> i == j,
        forall|i: int|
            0 <= i < c.apos_falha_de_abertura(p, agora).lista_negra.len() && (
            #[trigger] c.apos_falha_de_abertura(p, agora).lista_negra[i]).0 == p
                ==> c.apos_falha_de_abertura(p, agora).lista_negra[i].1 == agora,
        !c.em_quarentena(p) ==> c.apos_falha_de_abertura(p, agora).lista_negra
            == c.lista_negra.push((p, agora)),
        c.em_quarentena(p) ==> c.apos_falha_de_abertura(p, agora).lista_negra.len()
            == c.lista_negra.len(),
        forall|t: u64|
            outra != p ==> (#[trigger] c.apos_falha_de_abertura(p, agora).lista_negra.contains(
                (outra, t),
            ) <==> c.lista_negra.contains((outra, t))),
        outra != p ==> (c.apos_falha_de_abertura(p, agora).ativa(outra) <==> c.ativa(outra)),
{
    let d = c.apos_falha_de_abertura(p, agora);
    let l = c.lista_negra;
    let m = d.lista_negra;
    lema_coerencia(c, p, Seq::empty(), agora);
    lema_retirada(c.conectadas, p);
    let k = if bloqueada(l, p) {
        lugar_de(l, p)
    } else {
        l.len() as int
    };
    assert(m[k] == (p, agora));
    assert forall|i: int, j: int|
        0 <= i < m.len() && 0 <= j < m.len() && (#[trigger] m[i]).0 == p && (#[trigger] m[j]).0
            == p implies i == j by {
        if i < j {
            assert(m[i].0 != m[j].0);
        }
        if j < i {
            assert(m[j].0 != m[i].0);
        }
    }
    assert forall|i: int| 0 <= i < m.len() && (#[trigger] m[i]).0 == p implies m[i].1 == agora by {
        if i < k {
            assert(m[i].0 != m[k].0);
        }
        if k < i {
            assert(m[k].0 != m[i].0);
        }
    }
    assert forall|t: u64| outra != p implies (#[trigger] m.contains((outra, t)) <==> l.contains(
        (outra, t),
    )) by {
        if m.contains((outra, t)) {
            let i = choose|i: int| 0 <= i < m.len() && m[i] == (outra, t);
            assert(i != k);
            assert(l[i] == (outra, t));
        }
        if l.contains((outra, t)) {
            let i = choose|i: int| 0 <= i < l.len() && l[i] == (outra, t);
            assert(i != k) by {
                if bloqueada(l, p) {
                    assert(l[k].0 == p);
                }
            }
            assert(m[i] == (outra, t));
        }
    }
}

/// The views of a quarantine list.
pub open spec fn entradas(v: Seq<(String, u64)>) -> Seq<(Seq<char>, u64)> {
    Seq::new(v.len(), |i: int| (v[i].0@, v[i].1))
}

/// The table of serial ports: the connected ones and the quarantined ones.
pub struct Comm {
    portas_conectadas: Vec<String>,
    lista_negra: Vec<(String, u64)>,
}

impl View for Comm {
    type V = CommV;

    closed spec fn view(&self) -> CommV {
        CommV {
            conectadas: textos(self.portas_conectadas@),
            lista_negra: entradas(self.lista_negra@),
        }
    }
}

/// Finds the first place of a port in a list of ports.
fn posicao(v: &Vec<String>, p: &str) -> (r: Option<usize>)
    ensures
        match r {
            Some(i) => i < v@.len() && v@[i as int]@ == p@ && textos(v@).contains(p@),
            None => !textos(v@).contains(p@),
        },
{
    let n = v.len();
    let mut i: usize = 0;
    while i < n
        invariant
            i <= n,
            n == v@.len(),
            forall|k: int| 0 <= k < i ==> #[trigger] textos(v@)[k] != p@,
        decreases n - i,
    {
        if igual(v[i].as_str(), p) {
            assert(textos(v@)[i as int] == p@);
            return Some(i);
        }
        i = i + 1;
    }
    None
}

/// Finds the place of a port in a quarantine list.
fn lugar_na_lista(v: &Vec<(String, u64)>, p: &str) -> (r: Option<usize>)
    ensures
        match r {
            Some(i) => i < v@.len() && v@[i as int].0@ == p@ && bloqueada(entradas(v@), p@),
            None => !bloqueada(entradas(v@), p@),
        },
{
    let n = v.len();
    let mut i: usize = 0;
    while i < n
        invariant
            i <= n,
            n == v@.len(),
            forall|k: int| 0 <= k < i ==> (#[trigger] entradas(v@)[k]).0 != p@,
        decreases n - i,
    {
        if igual(v[i].0.as_str(), p) {
            assert(entradas(v@)[i as int].0 == p@);
            return Some(i);
        }
        i = i + 1;
    }
    None
}

impl Comm {
    #[verifier::type_invariant]
    pub(crate) open spec fn inv(&self) -> bool {
        self@.coerente()
    }

    /// A table without connections and without quarantines.
    pub fn new() -> (r: Self)
        ensures
            r@.conectadas == Seq::<Seq<char>>::empty(),
            r@.lista_negra == Seq::<(Seq<char>, u64)>::empty(),
            r@.coerente(),
    {
        let r = Comm { portas_conectadas: Vec::new(), lista_negra: Vec::new() };
        assert(textos(r.portas_conectadas@) =~= Seq::<Seq<char>>::empty());
        assert(entradas(r.lista_negra@) =~= Seq::<(Seq<char>, u64)>::empty());
        r
    }

    /// Tells whether a port has a listener.
    pub fn conectada(&self, porta: &str) -> (r: bool)
        ensures
            r == self@.ativa(porta@),
            self@.coerente(),
    {
        proof {
            use_type_invariant(self);
        }
        posicao(&self.portas_conectadas, porta).is_some()
    }

    /// Tells whether a port is in quarantine.
    pub fn na_lista_negra(&self, porta: &str) -> (r: bool)
        ensures
            r == self@.em_quarentena(porta@),
            self@.coerente(),
    {
        proof {
            use_type_invariant(self);
        }
        lugar_na_lista(&self.lista_negra, porta).is_some()
    }

    /// Takes down the listener of a port without quarantine. Tells whether
    /// the port had one.
    pub fn liberar(&mut self, porta: &str) -> (havia: bool)
        ensures
            final(self)@ == old(self)@.apos_liberacao(porta@),
            havia == old(self)@.ativa(porta@),
            old(self)@.coerente() && final(self)@.coerente(),
    {
        proof {
            use_type_invariant(&*self);
            lema_coerencia(self@, porta@, Seq::empty(), 0);
            lema_retirada(self@.conectadas, porta@);
        }
        let ghost antes = self@;
        let mut v: Vec<String> = Vec::new();
        std::mem::swap(&mut self.portas_conectadas, &mut v);
        let havia = match posicao(&v, porta) {
            Some(i) => {
                assert(antes.conectadas[i as int] == porta@);
                v.remove(i);
                assert(textos(v@) =~= antes.conectadas.remove(i as int));
                true
            },
            None => false,
        };
        self.portas_conectadas = v;
        havia
    }

    /// Takes down the listener of a port and sends the port to quarantine
    /// from `agora` on. A port without a listener is left alone. Tells
    /// whether the port had a listener.
    pub fn por_na_lista_negra(&mut self, porta: &str, agora: u64) -> (havia: bool)
        ensures
            final(self)@ == old(self)@.apos_quarentena(porta@, agora),
            havia == old(self)@.ativa(porta@),
            old(self)@.coerente() && final(self)@.coerente(),
    {
        proof {
            use_type_invariant(&*self);
            lema_coerencia(self@, porta@, Seq::empty(), agora);
            lema_retirada(self@.conectadas, porta@);
        }
        let ghost antes = self@;
        match posicao(&self.portas_conectadas, porta) {
            Some(i) => {
                assert(antes.conectadas[i as int] == porta@);
                let mut v: Vec<String> = Vec::new();
                let mut l: Vec<(String, u64)> = Vec::new();
                std::mem::swap(&mut self.portas_conectadas, &mut v);
                std::mem::swap(&mut self.lista_negra, &mut l);
                let nome = v.remove(i);
                l.push((nome, agora));
                assert(textos(v@) =~= antes.conectadas.remove(i as int));
                assert(entradas(l@) =~= antes.lista_negra.push((porta@, agora)));
                self.portas_conectadas = v;
                self.lista_negra = l;
                true
            },
            None => false,
        }
    }

    /// Records that an attempt to open a port has failed at `agora`: the
    /// port loses its reservation, if it had one, and is in quarantine from
    /// `agora` on, whether or not it had one.
    pub fn falha_de_abertura(&mut self, porta: &str, agora: u64)
        ensures
            final(self)@ == old(self)@.apos_falha_de_abertura(porta@, agora),
            old(self)@.coerente() && final(self)@.coerente(),
    {
        proof {
            use_type_invariant(&*self);
            lema_coerencia(self@, porta@, Seq::empty(), agora);
            lema_retirada(self@.conectadas, porta@);
        }
        let ghost antes = self@;
        let mut v: Vec<String> = Vec::new();
        let mut l: Vec<(String, u64)> = Vec::new();
        std::mem::swap(&mut self.portas_conectadas, &mut v);
        std::mem::swap(&mut self.lista_negra, &mut l);
        match posicao(&v, porta) {
            Some(i) => {
                assert(antes.conectadas[i as int] == porta@);
                v.remove(i);
                assert(textos(v@) =~= antes.conectadas.remove(i as int));
            },
            None => {},
        }
        match lugar_na_lista(&l, porta) {
            Some(j) => {
                proof {
                    let k = lugar_de(antes.lista_negra, porta@);
                    assert(antes.lista_negra[j as int].0 == porta@);
                    if k < j {
                        assert(antes.lista_negra[k].0 != antes.lista_negra[j as int].0);
                    }
                    if j < k {
                        assert(antes.lista_negra[j as int].0 != antes.lista_negra[k].0);
                    }
                }
                l.set(j, (porta.to_owned(), agora));
                assert(entradas(l@) =~= antes.lista_negra.update(j as int, (porta@, agora)));
            },
            None => {
                l.push((porta.to_owned(), agora));
                assert(entradas(l@) =~= antes.lista_negra.push((porta@, agora)));
            },
        }
        self.portas_conectadas = v;
        self.lista_negra = l;
    }

    /// One round of the port scanner at `agora`, with `disponiveis` present
    /// on the host: lifts the quarantines that are over, then reserves a
    /// connection for every listed port that is neither connected nor in
    /// quarantine. Returns the ports that need a listener started.
    pub fn buscador_portas(&mut self, disponiveis: &Vec<String>, agora: u64) -> (novas: Vec<String>)
        ensures
            final(self)@ == old(self)@.apos_varredura(textos(disponiveis@), agora),
            textos(novas@) == old(self)@.novas(textos(disponiveis@), agora),
            old(self)@.coerente() && final(self)@.coerente(),
    {
        proof {
            use_type_invariant(&*self);
            lema_coerencia(self@, Seq::empty(), textos(disponiveis@), agora);
        }
        let ghost antes = self@;
        let ghost disp = textos(disponiveis@);
        let mut con: Vec<String> = Vec::new();
        let mut l: Vec<(String, u64)> = Vec::new();
        std::mem::swap(&mut self.portas_conectadas, &mut con);
        std::mem::swap(&mut self.lista_negra, &mut l);
        let mut i: usize = 0;
        let ghost mut k: int = 0;
        proof {
            reveal(Seq::filter);
            assert(antes.lista_negra.take(0) =~= Seq::<(Seq<char>, u64)>::empty());
            assert(entradas(l@).take(0) =~= Seq::<(Seq<char>, u64)>::empty());
            assert(entradas(l@).skip(0) =~= antes.lista_negra.skip(0));
        }
        while i < l.len()
            invariant
                0 <= i <= l@.len(),
                i <= k <= antes.lista_negra.len(),
                entradas(l@).take(i as int) == podada(antes.lista_negra.take(k), agora),
                entradas(l@).skip(i as int) == antes.lista_negra.skip(k),
            decreases l@.len() - i,
        {
            let ghost e = entradas(l@);
            proof {
                reveal(Seq::filter);
                assert(e.skip(i as int).len() == antes.lista_negra.skip(k).len());
                assert(e.skip(i as int)[0] == antes.lista_negra.skip(k)[0]);
                assert(antes.lista_negra.take(k + 1).drop_last() =~= antes.lista_negra.take(k));
                assert(antes.lista_negra.skip(k + 1) =~= antes.lista_negra.skip(k).drop_first());
            }
            if decorrido(l[i].1, agora) < TEMPO_NA_LISTA_NEGRA {
                proof {
                    assert(e.take(i + 1) =~= e.take(i as int).push(e[i as int]));
                    assert(e.skip(i + 1) =~= e.skip(i as int).drop_first());
                }
                i = i + 1;
            } else {
                l.remove(i);
                proof {
                    assert(entradas(l@).take(i as int) =~= e.take(i as int));
                    assert(entradas(l@).skip(i as int) =~= e.skip(i as int).drop_first());
                }
            }
            proof {
                k = k + 1;
            }
        }
        proof {
            assert(entradas(l@).skip(i as int).len() == 0);
            assert(antes.lista_negra.take(k) =~= antes.lista_negra);
            assert(entradas(l@).take(i as int) =~= entradas(l@));
        }
        let ghost pl = podada(antes.lista_negra, agora);
        let mut novas: Vec<String> = Vec::new();
        let n = disponiveis.len();
        let mut j: usize = 0;
        proof {
            assert(disp.take(0) =~= Seq::<Seq<char>>::empty());
            assert(textos(novas@) =~= Seq::<Seq<char>>::empty());
            assert(textos(con@) =~= antes.conectadas + textos(novas@));
        }
        while j < n
            invariant
                j <= n,
                n == disponiveis@.len(),
                disp == textos(disponiveis@),
                entradas(l@) == pl,
                textos(novas@) == novas_de(antes.conectadas, pl, disp.take(j as int)),
                textos(con@) == antes.conectadas + textos(novas@),
            decreases n - j,
        {
            let ghost feitas = textos(novas@);
            let ghost ligadas = textos(con@);
            proof {
                assert(disp.take(j + 1).drop_last() =~= disp.take(j as int));
                assert(disp.take(j + 1).last() == disponiveis@[j as int]@);
            }
            let nome = &disponiveis[j];
            let ja = posicao(&con, nome.as_str()).is_some();
            proof {
                let p = nome@;
                if ligadas.contains(p) {
                    let x = choose|x: int| 0 <= x < ligadas.len() && ligadas[x] == p;
                    if x < antes.conectadas.len() {
                        assert(antes.conectadas[x] == p);
                    } else {
                        assert(feitas[x - antes.conectadas.len()] == p);
                    }
                }
                if antes.conectadas.contains(p) {
                    let x = choose|x: int|
                        0 <= x < antes.conectadas.len() && antes.conectadas[x] == p;
                    assert(ligadas[x] == p);
                }
                if feitas.contains(p) {
                    let x = choose|x: int| 0 <= x < feitas.len() && feitas[x] == p;
                    assert(ligadas[antes.conectadas.len() + x] == p);
                }
            }
            if !ja && lugar_na_lista(&l, nome.as_str()).is_none() {
                con.push(nome.clone());
                novas.push(nome.clone());
                proof {
                    assert(textos(novas@) =~= feitas.push(nome@));
                    assert(textos(con@) =~= ligadas.push(nome@));
                    assert(textos(con@) =~= antes.conectadas + textos(novas@));
                }
            }
            j = j + 1;
        }
        proof {
            assert(disp.take(n as int) =~= disp);
        }
        self.portas_conectadas = con;
        self.lista_negra = l;
        novas
    }

    /// Records in the table what the listener of a port has decided at
    /// `agora`.
    pub fn encerrar_ouvinte(&mut self, porta: &str, desfecho: Desfecho, agora: u64)
        ensures
            final(self)@ == old(self)@.apos_desfecho(porta@, desfecho, agora),
            old(self)@.coerente() && final(self)@.coerente(),
    {
        proof {
            use_type_invariant(&*self);
        }
        match desfecho {
            Desfecho::Silencio => {
                self.por_na_lista_negra(porta, agora);
            },
            Desfecho::Falha => {
                self.liberar(porta);
            },
            _ => {},
        }
    }
}

} // verus!
