//! The sensor registry: parses raw messages, keeps the latest reading of
//! every known device and forgets readings that have gone stale.

use vstd::prelude::*;
use vstd::string::*;
use crate::texto::{
    achar_padrao, aparado, aparar, campos_de, casa_padrao, decimal, e_decimal, igual,
    lema_campos_nao_vazio, regex_casa, regex_trecho, separar, textos, Busca, BuscaV,
};
use crate::tempo::{decorrido, idade};

verus! {

/// How long a reading stays in the registry, in milliseconds.
pub const TIMEOUT: u64 = 1000;

/// The character that separates the fields of a message.
pub const SEPARADOR: char = '\t';

/// The pattern of the numeral at the start of a field: an optional sign, an
/// integer part and an optional decimal part.
pub const PADRAO_NUMERO: &'static str = "^-?(0|[1-9]\\d*)(\\.\\d+)?";

/// The pattern of a well-formed message: a device identifier that starts
/// with a lower-case letter and holds no separator, a separator, and at
/// least three more characters.
pub const PADRAO_MENSAGEM: &'static str = "^[a-z][^\\t]*\\t.{3,}";

/// Whether the outcome of a match approves a message: only a pattern that
/// compiles and matches does.
pub open spec fn aprovada(casou: Option<bool>) -> bool {
    casou == Some(true)
}

/// Tells whether the outcome of a match approves a message.
pub fn aprovar(casou: Option<bool>) -> (r: bool)
    ensures
        r == aprovada(casou),
{
    match casou {
        Some(b) => b,
        None => false,
    }
}

/// Whether a message is well-formed: whether `PADRAO_MENSAGEM` matches it.
pub open spec fn bem_formada(msg: Seq<char>) -> bool {
    aprovada(regex_casa(PADRAO_MENSAGEM@, msg))
}

/// The filter that producers apply before a message goes on the queue:
/// approves the well-formed messages.
pub fn filtro(msg: &str) -> (r: bool)
    ensures
        r == bem_formada(msg@),
{
    aprovar(casa_padrao(PADRAO_MENSAGEM, msg))
}

/// Whether `d` names one of the four known devices: the left and right foot
/// units and the left and right hand units.
pub open spec fn na_lista_branca(d: Seq<char>) -> bool {
    d == "papE"@ || d == "papD"@ || d == "luvaE"@ || d == "luvaD"@
}

/// Tells whether a device identifier is one of the four known ones.
pub fn permitido(d: &str) -> (r: bool)
    ensures
        r == na_lista_branca(d@),
{
    igual(d, "papE") || igual(d, "papD") || igual(d, "luvaE") || igual(d, "luvaD")
}

/// The numeral that a search for `PADRAO_NUMERO` yields: the match itself
/// when it is a plain decimal numeral, nothing otherwise.
pub open spec fn valor_de(b: BuscaV) -> Option<Seq<char>> {
    match b {
        BuscaV::Trecho(t) => if e_decimal(t) {
            Some(t)
        } else {
            None
        },
        _ => None,
    }
}

/// Keeps the text of a match when it is a plain decimal numeral.
pub fn valor(b: Busca) -> (r: Option<String>)
    ensures
        match r {
            Some(t) => valor_de(b@) == Some(t@),
            None => valor_de(b@) is None,
        },
{
    match b {
        Busca::Trecho(t) => {
            if decimal(t.as_str()) {
                Some(t)
            } else {
                None
            }
        },
        _ => None,
    }
}

/// The numeral at the start of a field, if the field has one.
pub open spec fn valor_do_campo(campo: Seq<char>) -> Option<Seq<char>> {
    valor_de(regex_trecho(PADRAO_NUMERO@, campo))
}

/// The numerals of a list of fields, in order; fields without a leading
/// numeral leave no trace.
pub open spec fn valores_de(campos: Seq<Seq<char>>) -> Seq<Seq<char>>
    decreases campos.len(),
{
    if campos.len() == 0 {
        Seq::empty()
    } else {
        let antes = valores_de(campos.drop_last());
        match valor_do_campo(campos.last()) {
            Some(v) => antes.push(v),
            None => antes,
        }
    }
}

/// What a message says: the device that sent it and its numerals. A message
/// whose first field is no known device says nothing.
pub open spec fn leitura_de(msg: Seq<char>) -> Option<(Seq<char>, Seq<Seq<char>>)> {
    let campos = campos_de(aparado(msg), SEPARADOR);
    if na_lista_branca(campos[0]) {
        Some((campos[0], valores_de(campos.skip(1))))
    } else {
        None
    }
}

/// Every numeral taken from a list of fields is a plain decimal numeral.
pub proof fn lema_valores_decimais(campos: Seq<Seq<char>>)
    ensures
        forall|i: int| 0 <= i < valores_de(campos).len() ==> e_decimal(#[trigger] valores_de(campos)[i]),
        valores_de(campos).len() <= campos.len(),
    decreases campos.len(),
{
    if campos.len() > 0 {
        lema_valores_decimais(campos.drop_last());
    }
}

/// Reads a message: trims it, splits it at the separators, checks the
/// device and collects the numerals of the remaining fields.
pub fn interpretar(msg: &str) -> (r: Option<(String, Vec<String>)>)
    ensures
        match r {
            Some((d, v)) => leitura_de(msg@) == Some((d@, textos(v@))),
            None => leitura_de(msg@) is None,
        },
{
    let mut campos = separar(aparar(msg), SEPARADOR);
    proof {
        lema_campos_nao_vazio(aparado(msg@), SEPARADOR);
    }
    let ghost todos = textos(campos@);
    assert(todos[0] == campos@[0]@);
    if !permitido(campos[0].as_str()) {
        return None;
    }
    let n = campos.len();
    let mut valores: Vec<String> = Vec::new();
    let mut i: usize = 1;
    assert(todos.skip(1).take(0) =~= Seq::<Seq<char>>::empty());
    assert(textos(valores@) =~= Seq::<Seq<char>>::empty());
    while i < n
        invariant
            1 <= i <= n,
            n == campos@.len(),
            todos == textos(campos@),
            textos(valores@) == valores_de(todos.skip(1).take(i - 1)),
        decreases n - i,
    {
        let ghost antes = textos(valores@);
        assert(todos.skip(1).take(i - 1 + 1).drop_last() =~= todos.skip(1).take(i - 1));
        assert(todos.skip(1).take(i - 1 + 1).last() == campos@[i as int]@);
        match valor(achar_padrao(PADRAO_NUMERO, campos[i].as_str())) {
            Some(v) => {
                valores.push(v);
                assert(textos(valores@) =~= antes.push(v@));
            },
            None => {},
        }
        i = i + 1;
    }
    assert(todos.skip(1).take(n - 1) =~= todos.skip(1));
    let device = campos.swap_remove(0);
    Some((device, valores))
}

/// The latest reading of one device.
#[derive(Debug)]
pub struct Sensor {
    /// The device that sent the reading.
    pub device: String,
    /// The numerals of the reading, in the order of their fields.
    pub values: Vec<String>,
    /// When the reading was recorded.
    pub time: u64,
}

/// What a `Sensor` stands for in contracts.
pub struct SensorV {
    pub device: Seq<char>,
    pub values: Seq<Seq<char>>,
    pub time: u64,
}

impl View for Sensor {
    type V = SensorV;

    open spec fn view(&self) -> SensorV {
        SensorV { device: self.device@, values: textos(self.values@), time: self.time }
    }
}

/// The views of a list of readings.
pub open spec fn visoes(v: Seq<Sensor>) -> Seq<SensorV> {
    Seq::new(v.len(), |i: int| v[i]@)
}

/// Whether a reading recorded at `t` is still within the freshness window
/// at `agora`.
pub open spec fn fresco(t: u64, agora: u64) -> bool {
    idade(t, agora) < TIMEOUT
}

/// The readings of `s` that are fresh at `agora`, in their order.
pub open spec fn frescos(s: Seq<SensorV>, agora: u64) -> Seq<SensorV> {
    s.filter(|x: SensorV| fresco(x.time, agora))
}

/// Whether `s` holds a reading of device `d`.
pub open spec fn tem(s: Seq<SensorV>, d: Seq<char>) -> bool {
    exists|i: int| 0 <= i < s.len() && #[trigger] s[i].device == d
}

/// The place of the reading of device `d` in `s`.
pub open spec fn lugar(s: Seq<SensorV>, d: Seq<char>) -> int {
    choose|i: int| 0 <= i < s.len() && #[trigger] s[i].device == d
}

/// `s` after a reading of device `d` has been recorded at `agora`: the
/// reading replaces the one that `d` had, in its place, or goes to the end.
pub open spec fn gravado(
    s: Seq<SensorV>,
    d: Seq<char>,
    v: Seq<Seq<char>>,
    agora: u64,
) -> Seq<SensorV> {
    let novo = SensorV { device: d, values: v, time: agora };
    if tem(s, d) {
        s.update(lugar(s, d), novo)
    } else {
        s.push(novo)
    }
}

/// `s` after the message `msg` has been processed at `agora`: its reading,
/// if it has one, is recorded, and whatever is stale by then is dropped.
pub open spec fn apos_mensagem(s: Seq<SensorV>, msg: Seq<char>, agora: u64) -> Seq<SensorV> {
    match leitura_de(msg) {
        Some((d, v)) => frescos(gravado(s, d, v, agora), agora),
        None => frescos(s, agora),
    }
}

/// What holds of the registry at all times: no device has two readings,
/// every device is a known one, and every value is a plain decimal numeral.
pub open spec fn valido(s: Seq<SensorV>) -> bool {
    &&& forall|i: int, j: int|
        0 <= i < j < s.len() ==> (#[trigger] s[i]).device != (#[trigger] s[j]).device
    &&& forall|i: int| 0 <= i < s.len() ==> na_lista_branca((#[trigger] s[i]).device)
    &&& forall|i: int, j: int|
        0 <= i < s.len() && 0 <= j < s[i].values.len() ==> e_decimal(#[trigger] s[i].values[j])
}

/// Dropping stale readings keeps the others in order: every reading that
/// stays was there before, is fresh, and the registry stays valid.
pub proof fn lema_frescos(s: Seq<SensorV>, agora: u64)
    ensures
        frescos(s, agora).len() <= s.len(),
        forall|i: int|
            0 <= i < frescos(s, agora).len() ==> s.contains(#[trigger] frescos(s, agora)[i])
                && fresco(frescos(s, agora)[i].time, agora),
        forall|i: int|
            0 <= i < s.len() && fresco(s[i].time, agora) ==> frescos(s, agora).contains(
                #[trigger] s[i],
            ),
        valido(s) ==> valido(frescos(s, agora)),
    decreases s.len(),
{
    reveal(Seq::filter);
    if s.len() > 0 {
        let antes = s.drop_last();
        lema_frescos(antes, agora);
        let fa = frescos(antes, agora);
        let f = frescos(s, agora);
        assert forall|i: int| 0 <= i < f.len() implies s.contains(#[trigger] f[i]) && fresco(
            f[i].time,
            agora,
        ) by {
            if i < fa.len() {
                assert(antes.contains(fa[i]));
                let k = choose|k: int| 0 <= k < antes.len() && antes[k] == fa[i];
                assert(s[k] == fa[i]);
            } else {
                assert(f[i] == s[s.len() - 1]);
            }
        }
        assert forall|i: int| 0 <= i < s.len() && fresco(s[i].time, agora) implies f.contains(
            #[trigger] s[i],
        ) by {
            if i < antes.len() {
                assert(antes[i] == s[i]);
                assert(fa.contains(antes[i]));
                let k = choose|k: int| 0 <= k < fa.len() && fa[k] == antes[i];
                assert(f[k] == s[i]);
            } else {
                assert(f[f.len() - 1] == s[i]);
            }
        }
        if valido(s) {
            assert(valido(antes)) by {
                assert forall|i: int, j: int| 0 <= i < j < antes.len() implies (
                #[trigger] antes[i]).device != (#[trigger] antes[j]).device by {
                    assert(s[i].device != s[j].device);
                }
                assert forall|i: int| 0 <= i < antes.len() implies na_lista_branca(
                    (#[trigger] antes[i]).device,
                ) by {
                    assert(na_lista_branca(s[i].device));
                }
                assert forall|i: int, j: int|
                    0 <= i < antes.len() && 0 <= j < antes[i].values.len() implies e_decimal(
                    #[trigger] antes[i].values[j],
                ) by {
                    assert(e_decimal(s[i].values[j]));
                }
            }
            assert forall|i: int, j: int| 0 <= i < j < f.len() implies (#[trigger] f[i]).device != (
            #[trigger] f[j]).device by {
                if j == fa.len() {
                    assert(antes.contains(fa[i]));
                    let k = choose|k: int| 0 <= k < antes.len() && antes[k] == fa[i];
                    assert(s[k].device != s[s.len() - 1].device);
                } else {
                    assert(fa[i].device != fa[j].device);
                }
            }
            assert forall|i: int| 0 <= i < f.len() implies na_lista_branca(
                (#[trigger] f[i]).device,
            ) by {
                assert(s.contains(f[i]));
                let k = choose|k: int| 0 <= k < s.len() && s[k] == f[i];
                assert(na_lista_branca(s[k].device));
            }
            assert forall|i: int, j: int|
                0 <= i < f.len() && 0 <= j < f[i].values.len() implies e_decimal(
                #[trigger] f[i].values[j],
            ) by {
                assert(s.contains(f[i]));
                let k = choose|k: int| 0 <= k < s.len() && s[k] == f[i];
                assert(e_decimal(s[k].values[j]));
            }
        }
    }
}

/// Recording a reading of a known device with decimal values keeps the
/// registry valid.
pub proof fn lema_gravado_valido(s: Seq<SensorV>, d: Seq<char>, v: Seq<Seq<char>>, agora: u64)
    requires
        valido(s),
        na_lista_branca(d),
        forall|j: int| 0 <= j < v.len() ==> e_decimal(#[trigger] v[j]),
    ensures
        valido(gravado(s, d, v, agora)),
{
    let g = gravado(s, d, v, agora);
    if tem(s, d) {
        let p = lugar(s, d);
        assert forall|i: int, j: int| 0 <= i < j < g.len() implies (#[trigger] g[i]).device != (
        #[trigger] g[j]).device by {
            assert(s[i].device != s[j].device);
        }
        assert forall|i: int| 0 <= i < g.len() implies na_lista_branca((#[trigger] g[i]).device) by {
            assert(na_lista_branca(s[i].device));
        }
        assert forall|i: int, j: int|
            0 <= i < g.len() && 0 <= j < g[i].values.len() implies e_decimal(
            #[trigger] g[i].values[j],
        ) by {
            if i != p {
                assert(e_decimal(s[i].values[j]));
            }
        }
    } else {
        assert forall|i: int, j: int| 0 <= i < j < g.len() implies (#[trigger] g[i]).device != (
        #[trigger] g[j]).device by {
            if j < s.len() {
                assert(s[i].device != s[j].device);
            } else {
                assert(s[i].device != d);
            }
        }
        assert forall|i: int| 0 <= i < g.len() implies na_lista_branca((#[trigger] g[i]).device) by {
            if i < s.len() {
                assert(na_lista_branca(s[i].device));
            }
        }
        assert forall|i: int, j: int|
            0 <= i < g.len() && 0 <= j < g[i].values.len() implies e_decimal(
            #[trigger] g[i].values[j],
        ) by {
            if i < s.len() {
                assert(e_decimal(s[i].values[j]));
            }
        }
    }
}

/// `s` after one turn of the consumer at `agora`, on what it took off the
/// queue: a message is processed; stale readings are dropped either way.
pub open spec fn apos_turno(s: Seq<SensorV>, msg: Option<String>, agora: u64) -> Seq<SensorV> {
    match msg {
        Some(m) => apos_mensagem(s, m@, agora),
        None => frescos(s, agora),
    }
}

/// The devices of a list of readings, in order.
pub open spec fn dispositivos(s: Seq<SensorV>) -> Seq<Seq<char>> {
    Seq::new(s.len(), |i: int| s[i].device)
}

/// The values of a list of readings, one row per reading, in order.
pub open spec fn valores(s: Seq<SensorV>) -> Seq<Seq<Seq<char>>> {
    Seq::new(s.len(), |i: int| s[i].values)
}

/// The views of the rows of a table of texts.
pub open spec fn tabela(b: Seq<Vec<String>>) -> Seq<Seq<Seq<char>>> {
    Seq::new(b.len(), |i: int| textos(b[i]@))
}

/// Overwrites a row with copies of `origem`, reusing the texts slots that
/// the row already has and cutting off what is left over.
pub fn copiar_linha(linha: &mut Vec<String>, origem: &Vec<String>)
    ensures
        textos(final(linha)@) == textos(origem@),
{
    let n = origem.len();
    let mut j: usize = 0;
    while j < n
        invariant
            j <= n,
            n == origem@.len(),
            j <= linha@.len(),
            textos(linha@).take(j as int) == textos(origem@).take(j as int),
        decreases n - j,
    {
        let ghost antes = textos(linha@);
        let copia = origem[j].clone();
        if linha.len() < j + 1 {
            linha.push(copia);
        } else {
            linha.set(j, copia);
        }
        assert(textos(linha@).take(j + 1) =~= antes.take(j as int).push(origem@[j as int]@));
        assert(textos(origem@).take(j + 1) =~= textos(origem@).take(j as int).push(
            origem@[j as int]@,
        ));
        j = j + 1;
    }
    linha.truncate(n);
    assert(textos(linha@) =~= textos(origem@).take(n as int));
    assert(textos(origem@).take(n as int) =~= textos(origem@));
}

/// Processing a message keeps the registry valid, and a message that names
/// no known device only ages the registry.
pub proof fn lema_apos_mensagem(s: Seq<SensorV>, msg: Seq<char>, agora: u64)
    requires
        valido(s),
    ensures
        valido(apos_mensagem(s, msg, agora)),
        leitura_de(msg) is None ==> apos_mensagem(s, msg, agora) == frescos(s, agora),
        forall|i: int|
            0 <= i < apos_mensagem(s, msg, agora).len() ==> fresco(
                (#[trigger] apos_mensagem(s, msg, agora)[i]).time,
                agora,
            ),
{
    match leitura_de(msg) {
        Some((d, v)) => {
            lema_valores_decimais(campos_de(aparado(msg), SEPARADOR).skip(1));
            lema_gravado_valido(s, d, v, agora);
            lema_frescos(gravado(s, d, v, agora), agora);
        },
        None => {
            lema_frescos(s, agora);
        },
    }
}

/// Right after a message of a known device has been processed, the registry
/// holds exactly one reading of that device: the one of the message, with
/// the instant of processing.
pub proof fn lema_leitura_unica(s: Seq<SensorV>, msg: Seq<char>, agora: u64)
    requires
        valido(s),
        leitura_de(msg) is Some,
    ensures
        ({
            let r = apos_mensagem(s, msg, agora);
            let (d, v) = leitura_de(msg)->0;
            let novo = SensorV { device: d, values: v, time: agora };
            &&& r.contains(novo)
            &&& forall|i: int| 0 <= i < r.len() && (#[trigger] r[i]).device == d ==> r[i] == novo
            &&& forall|i: int, j: int|
                0 <= i < r.len() && 0 <= j < r.len() && (#[trigger] r[i]).device == d && (
                #[trigger] r[j]).device == d ==> i == j
        }),
{
    let (d, v) = leitura_de(msg)->0;
    let novo = SensorV { device: d, values: v, time: agora };
    let g = gravado(s, d, v, agora);
    let r = apos_mensagem(s, msg, agora);
    lema_valores_decimais(campos_de(aparado(msg), SEPARADOR).skip(1));
    lema_gravado_valido(s, d, v, agora);
    lema_frescos(g, agora);
    let k = if tem(s, d) {
        lugar(s, d)
    } else {
        s.len() as int
    };
    assert(g[k] == novo);
    assert(r.contains(g[k]));
    assert forall|i: int| 0 <= i < r.len() && (#[trigger] r[i]).device == d implies r[i]
        == novo by {
        assert(g.contains(r[i]));
        let m = choose|m: int| 0 <= m < g.len() && g[m] == r[i];
        if m < k {
            assert(g[m].device != g[k].device);
        }
        if k < m {
            assert(g[k].device != g[m].device);
        }
    }
    assert forall|i: int, j: int|
        0 <= i < r.len() && 0 <= j < r.len() && (#[trigger] r[i]).device == d && (
        #[trigger] r[j]).device == d implies i == j by {
        if i < j {
            assert(r[i].device != r[j].device);
        }
        if j < i {
            assert(r[j].device != r[i].device);
        }
    }
}

/// No reading outlives the freshness window. Whatever a query returns is
/// less than a second old; and a device whose last message was processed a
/// second or more before the query is not among the active ones.
pub proof fn lema_frescor(s: Seq<SensorV>, msg: Seq<char>, t: u64, agora: u64)
    requires
        valido(s),
        leitura_de(msg) is Some,
    ensures
        forall|i: int|
            0 <= i < frescos(s, agora).len() ==> idade(
                (#[trigger] frescos(s, agora)[i]).time,
                agora,
            ) < TIMEOUT,
        ({
            let (d, v) = leitura_de(msg)->0;
            let ativos = dispositivos(frescos(apos_mensagem(s, msg, t), agora));
            ativos.contains(d) <==> idade(t, agora) < TIMEOUT
        }),
{
    let (d, v) = leitura_de(msg)->0;
    let novo = SensorV { device: d, values: v, time: t };
    let a = apos_mensagem(s, msg, t);
    let f = frescos(a, agora);
    lema_frescos(s, agora);
    lema_leitura_unica(s, msg, t);
    lema_frescos(a, agora);
    if dispositivos(f).contains(d) {
        let i = choose|i: int| 0 <= i < dispositivos(f).len() && dispositivos(f)[i] == d;
        assert(f[i].device == d);
        assert(a.contains(f[i]));
        let m = choose|m: int| 0 <= m < a.len() && a[m] == f[i];
        assert(a[m].device == d);
        assert(a[m] == novo);
        assert(fresco(f[i].time, agora));
    }
    if idade(t, agora) < TIMEOUT {
        let m = choose|m: int| 0 <= m < a.len() && a[m] == novo;
        assert(f.contains(a[m]));
        let i = choose|i: int| 0 <= i < f.len() && f[i] == novo;
        assert(dispositivos(f)[i] == d);
    }
}

/// Sending the same message twice leaves one reading of its device, with
/// the values of the message and the instant of the second arrival. When
/// the second arrival is within the freshness window of the first, the
/// device was still active when it came, so its reading was refreshed and
/// not made anew.
pub proof fn lema_reenvio(s: Seq<SensorV>, msg: Seq<char>, t1: u64, t2: u64)
    requires
        valido(s),
        leitura_de(msg) is Some,
    ensures
        ({
            let a = apos_mensagem(s, msg, t1);
            let r = apos_mensagem(a, msg, t2);
            let (d, v) = leitura_de(msg)->0;
            let novo = SensorV { device: d, values: v, time: t2 };
            &&& r.contains(novo)
            &&& forall|i: int| 0 <= i < r.len() && (#[trigger] r[i]).device == d ==> r[i] == novo
            &&& forall|i: int, j: int|
                0 <= i < r.len() && 0 <= j < r.len() && (#[trigger] r[i]).device == d && (
                #[trigger] r[j]).device == d ==> i == j
            &&& idade(t1, t2) < TIMEOUT ==> dispositivos(frescos(a, t2)).contains(d)
        }),
{
    lema_apos_mensagem(s, msg, t1);
    lema_leitura_unica(apos_mensagem(s, msg, t1), msg, t2);
    lema_frescor(s, msg, t1, t2);
}

/// The live table of readings, one per device that has reported within the
/// freshness window.
pub struct Sensores {
    sensores: Vec<Sensor>,
}

impl View for Sensores {
    type V = Seq<SensorV>;

    closed spec fn view(&self) -> Seq<SensorV> {
        visoes(self.sensores@)
    }
}

impl Sensores {
    #[verifier::type_invariant]
    spec fn inv(&self) -> bool {
        valido(visoes(self.sensores@))
    }

    /// An empty registry.
    pub fn new() -> (r: Self)
        ensures
            r@ == Seq::<SensorV>::empty(),
            valido(r@),
    {
        let r = Sensores { sensores: Vec::new() };
        assert(visoes(r.sensores@) =~= Seq::<SensorV>::empty());
        r
    }

    /// The readings that the registry holds, in the order in which their
    /// devices entered it.
    pub fn leituras(&self) -> (r: &Vec<Sensor>)
        ensures
            visoes(r@) == self@,
            valido(self@),
    {
        proof {
            use_type_invariant(self);
        }
        &self.sensores
    }

    /// Records a reading of `device` taken at `agora`.
    fn gravar(&mut self, device: String, values: Vec<String>, agora: u64)
        requires
            na_lista_branca(device@),
            forall|j: int| 0 <= j < values@.len() ==> e_decimal(#[trigger] values@[j]@),
        ensures
            final(self)@ == gravado(old(self)@, device@, textos(values@), agora),
    {
        proof {
            use_type_invariant(&*self);
            lema_gravado_valido(self@, device@, textos(values@), agora);
        }
        let ghost antes = self@;
        let mut v: Vec<Sensor> = Vec::new();
        std::mem::swap(&mut self.sensores, &mut v);
        let n = v.len();
        let mut i: usize = 0;
        while i < n && !igual(v[i].device.as_str(), device.as_str())
            invariant
                i <= n,
                n == v@.len(),
                forall|k: int| 0 <= k < i ==> (#[trigger] visoes(v@)[k]).device != device@,
            decreases n - i,
        {
            i = i + 1;
        }
        let novo = Sensor { device, values, time: agora };
        if i < n {
            assert(antes[i as int].device == novo@.device);
            v.set(i, novo);
            assert(visoes(v@) =~= antes.update(i as int, novo@));
        } else {
            v.push(novo);
            assert(visoes(v@) =~= antes.push(novo@));
        }
        self.sensores = v;
    }

    /// Drops every reading that is no longer fresh at `agora`.
    pub fn expurgar(&mut self, agora: u64)
        ensures
            final(self)@ == frescos(old(self)@, agora),
            valido(old(self)@) && valido(final(self)@),
    {
        proof {
            use_type_invariant(&*self);
            lema_frescos(self@, agora);
        }
        let ghost antes = self@;
        let mut v: Vec<Sensor> = Vec::new();
        std::mem::swap(&mut self.sensores, &mut v);
        let mut i: usize = 0;
        let ghost mut k: int = 0;
        proof {
            reveal(Seq::filter);
            assert(antes.take(0) =~= Seq::<SensorV>::empty());
            assert(visoes(v@).take(0) =~= Seq::<SensorV>::empty());
            assert(visoes(v@).skip(0) =~= antes.skip(0));
        }
        while i < v.len()
            invariant
                0 <= i <= v@.len(),
                i <= k <= antes.len(),
                visoes(v@).take(i as int) == frescos(antes.take(k), agora),
                visoes(v@).skip(i as int) == antes.skip(k),
            decreases v@.len() - i,
        {
            proof {
                reveal(Seq::filter);
                assert(visoes(v@).skip(i as int).len() == antes.skip(k).len());
                assert(visoes(v@).skip(i as int)[0] == antes.skip(k)[0]);
                assert(antes.take(k + 1).drop_last() =~= antes.take(k));
            }
            let ghost vv = visoes(v@);
            if decorrido(v[i].time, agora) < TIMEOUT {
                proof {
                    assert(vv.take(i + 1) =~= vv.take(i as int).push(vv[i as int]));
                    assert(vv.skip(i + 1) =~= vv.skip(i as int).drop_first());
                    assert(antes.skip(k + 1) =~= antes.skip(k).drop_first());
                    k = k + 1;
                }
                i = i + 1;
            } else {
                v.remove(i);
                proof {
                    assert(visoes(v@).take(i as int) =~= vv.take(i as int));
                    assert(visoes(v@).skip(i as int) =~= vv.skip(i as int).drop_first());
                    assert(antes.skip(k + 1) =~= antes.skip(k).drop_first());
                    k = k + 1;
                }
            }
        }
        proof {
            assert(visoes(v@).skip(i as int).len() == 0);
            assert(antes.take(k) =~= antes);
            assert(visoes(v@).take(i as int) =~= visoes(v@));
        }
        self.sensores = v;
    }

    /// Processes one message at `agora`: records its reading if its device
    /// is known, then drops what is stale. Tells whether the message was
    /// recorded.
    pub fn registrar(&mut self, msg: &str, agora: u64) -> (aceita: bool)
        ensures
            final(self)@ == apos_mensagem(old(self)@, msg@, agora),
            aceita == leitura_de(msg@) is Some,
            valido(old(self)@) && valido(final(self)@),
    {
        proof {
            use_type_invariant(&*self);
            lema_apos_mensagem(self@, msg@, agora);
        }
        let aceita = match interpretar(msg) {
            Some((d, v)) => {
                proof {
                    lema_valores_decimais(campos_de(aparado(msg@), SEPARADOR).skip(1));
                    assert forall|j: int| 0 <= j < v@.len() implies e_decimal(
                        #[trigger] v@[j]@,
                    ) by {
                        assert(v@[j]@ == textos(v@)[j]);
                    }
                }
                self.gravar(d, v, agora);
                true
            },
            None => false,
        };
        self.expurgar(agora);
        aceita
    }

    /// One turn of the consumer at `agora`, on what it took off the queue:
    /// a message is processed; stale readings are dropped either way. Tells
    /// whether a message was recorded.
    pub fn listener(&mut self, msg: Option<String>, agora: u64) -> (aceita: bool)
        ensures
            final(self)@ == apos_turno(old(self)@, msg, agora),
            aceita == (msg is Some && leitura_de(msg->0@) is Some),
            valido(old(self)@) && valido(final(self)@),
    {
        match msg {
            Some(m) => self.registrar(m.as_str(), agora),
            None => {
                self.expurgar(agora);
                false
            },
        }
    }

    /// The devices whose reading is fresh at `agora`, in the order in which
    /// they entered the registry.
    pub fn obter_sensores_ativos(&self, agora: u64) -> (r: Vec<String>)
        ensures
            textos(r@) == dispositivos(frescos(self@, agora)),
            valido(self@),
    {
        proof {
            use_type_invariant(self);
        }
        let mut r: Vec<String> = Vec::new();
        let n = self.sensores.len();
        let ghost s = self@;
        let mut i: usize = 0;
        proof {
            reveal(Seq::filter);
            assert(s.take(0) =~= Seq::<SensorV>::empty());
            assert(textos(r@) =~= dispositivos(frescos(s.take(0), agora)));
        }
        while i < n
            invariant
                i <= n,
                n == self.sensores@.len(),
                s == visoes(self.sensores@),
                textos(r@) == dispositivos(frescos(s.take(i as int), agora)),
            decreases n - i,
        {
            proof {
                reveal(Seq::filter);
                assert(s.take(i + 1).drop_last() =~= s.take(i as int));
            }
            let ghost antes = textos(r@);
            if decorrido(self.sensores[i].time, agora) < TIMEOUT {
                r.push(self.sensores[i].device.clone());
                assert(textos(r@) =~= antes.push(s[i as int].device));
                assert(dispositivos(frescos(s.take(i + 1), agora)) =~= dispositivos(
                    frescos(s.take(i as int), agora),
                ).push(s[i as int].device));
            }
            i = i + 1;
        }
        assert(s.take(n as int) =~= s);
        r
    }

    /// Writes the values of every device whose reading is fresh at `agora`
    /// into `buffer`, one row per device in the order of
    /// `obter_sensores_ativos`. Rows and texts that `buffer` already holds
    /// are reused; what is left over is cut off.
    pub fn obter_valores(&self, agora: u64, buffer: &mut Vec<Vec<String>>)
        ensures
            tabela(final(buffer)@) == valores(frescos(self@, agora)),
            valido(self@),
    {
        proof {
            use_type_invariant(self);
        }
        let n = self.sensores.len();
        let ghost s = self@;
        let mut i: usize = 0;
        let mut k: usize = 0;
        proof {
            reveal(Seq::filter);
            assert(s.take(0) =~= Seq::<SensorV>::empty());
            assert(tabela(buffer@).take(0) =~= valores(frescos(s.take(0), agora)));
        }
        while i < n
            invariant
                k <= i <= n,
                n == self.sensores@.len(),
                s == visoes(self.sensores@),
                k <= buffer@.len(),
                tabela(buffer@).take(k as int) == valores(frescos(s.take(i as int), agora)),
            decreases n - i,
        {
            proof {
                reveal(Seq::filter);
                assert(s.take(i + 1).drop_last() =~= s.take(i as int));
            }
            if decorrido(self.sensores[i].time, agora) < TIMEOUT {
                if buffer.len() < k + 1 {
                    buffer.push(Vec::with_capacity(2));
                }
                let ghost antes = tabela(buffer@);
                copiar_linha(&mut buffer[k], &self.sensores[i].values);
                assert(tabela(buffer@).take(k + 1) =~= antes.take(k as int).push(
                    s[i as int].values,
                ));
                assert(valores(frescos(s.take(i + 1), agora)) =~= valores(
                    frescos(s.take(i as int), agora),
                ).push(s[i as int].values));
                k = k + 1;
            }
            i = i + 1;
        }
        let ghost antes = tabela(buffer@);
        buffer.truncate(k);
        assert(tabela(buffer@) =~= antes.take(k as int));
        assert(s.take(n as int) =~= s);
    }
}

} // verus!
