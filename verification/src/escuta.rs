//! The producers: what a serial listener and the network listener do with
//! what they receive, one event at a time. Reading, waiting and signalling
//! are the caller's part; the decisions are made here.

use vstd::prelude::*;
use vstd::string::*;
use vstd::utf8::*;
use crate::comm::{Comm, Desfecho, TEMPO_MAX_SEM_MSG};
use crate::fila::Fila;
use crate::tempo::{decorrido, idade};
use crate::texto::de_utf8;

verus! {

/// What a non-blocking look at a termination channel found.
#[derive(Clone, Copy, PartialEq, Eq, Debug)]
pub enum Sinal {
    /// A request to stop was waiting.
    Fim,
    /// The other end of the channel is gone.
    Desligado,
    /// Nothing was waiting.
    Nada,
}

/// Tells whether a loop must end on what its termination channel held: on a
/// request to stop, and also when nobody is left to send one.
pub fn encerrar(sinal: Sinal) -> (r: bool)
    ensures
        r == !(sinal is Nada),
{
    match sinal {
        Sinal::Fim => true,
        Sinal::Desligado => true,
        Sinal::Nada => false,
    }
}

/// Whether a filter can be called on every message.
pub open spec fn total<F: Fn(&str) -> bool>(filtro: Option<&F>) -> bool {
    match filtro {
        Some(f) => forall|m: &str| call_requires(*f, (m,)),
        None => true,
    }
}

/// Whether `b` is a verdict that the filter can give on a message that reads
/// `texto`. Without a filter every message is approved.
pub open spec fn veredito<F: Fn(&str) -> bool>(
    filtro: Option<&F>,
    texto: Seq<char>,
    b: bool,
) -> bool {
    match filtro {
        Some(f) => exists|m: &str| m@ == texto && call_ensures(*f, (m,), b),
        None => b,
    }
}

/// Puts a message on the queue if the filter approves it. Tells whether
/// the message is now on the queue.
pub fn add_to_queue<F: Fn(&str) -> bool>(
    queue: &mut Fila,
    msg: &str,
    filtro: Option<&F>,
) -> (aceita: bool)
    requires
        total(filtro),
    ensures
        veredito(filtro, msg@, aceita),
        final(queue)@ == if aceita {
            old(queue)@.push(msg@)
        } else {
            old(queue)@
        },
{
    let aprovada = match filtro {
        Some(f) => f(msg),
        None => true,
    };
    if aprovada {
        queue.enfileirar(msg.to_owned());
    }
    aprovada
}

/// How a queue `antes` becomes `depois` when the bytes `dados` arrive: they
/// are recorded as one message if they are well-formed text that the filter
/// approves; otherwise nothing changes.
pub open spec fn ingestao<F: Fn(&str) -> bool>(
    filtro: Option<&F>,
    dados: Seq<u8>,
    antes: Seq<Seq<char>>,
    depois: Seq<Seq<char>>,
    aceita: bool,
) -> bool {
    if aceita {
        valid_utf8(dados) && veredito(filtro, decode_utf8(dados), true) && depois == antes.push(
            decode_utf8(dados),
        )
    } else {
        depois == antes && (!valid_utf8(dados) || veredito(filtro, decode_utf8(dados), false))
    }
}

/// A message that the filter rejects never reaches the queue: when every
/// verdict that the filter can give on the received text is a rejection, the
/// queue stays as it was.
pub proof fn lema_rejeitada<F: Fn(&str) -> bool>(
    filtro: Option<&F>,
    dados: Seq<u8>,
    antes: Seq<Seq<char>>,
    depois: Seq<Seq<char>>,
    aceita: bool,
)
    requires
        ingestao(filtro, dados, antes, depois, aceita),
        !veredito(filtro, decode_utf8(dados), true),
    ensures
        !aceita,
        depois == antes,
{
}

/// Decodes received bytes as text and offers the text to the queue. Bytes
/// that are no well-formed text are discarded. Tells whether a message was
/// put on the queue.
pub fn ingerir<F: Fn(&str) -> bool>(
    queue: &mut Fila,
    dados: &[u8],
    filtro: Option<&F>,
) -> (aceita: bool)
    requires
        total(filtro),
    ensures
        ingestao(filtro, dados@, old(queue)@, final(queue)@, aceita),
{
    match de_utf8(dados) {
        Some(msg) => add_to_queue(queue, msg, filtro),
        None => false,
    }
}

/// What a receive on the network socket gave.
pub enum Recebido {
    /// A datagram with these bytes.
    Datagrama(Vec<u8>),
    /// The receive failed.
    Erro,
}

/// One turn of the network listener: a datagram is decoded and offered to
/// the queue; a failed receive changes nothing and does not end the
/// listener. Tells whether a message was put on the queue.
pub fn escutador_wifi<F: Fn(&str) -> bool>(
    queue: &mut Fila,
    recebido: &Recebido,
    filtro: Option<&F>,
) -> (aceita: bool)
    requires
        total(filtro),
    ensures
        match recebido {
            Recebido::Datagrama(d) => ingestao(filtro, d@, old(queue)@, final(queue)@, aceita),
            Recebido::Erro => !aceita && final(queue)@ == old(queue)@,
        },
{
    match recebido {
        Recebido::Datagrama(d) => ingerir(queue, d.as_slice(), filtro),
        Recebido::Erro => false,
    }
}

/// The listener of one serial port.
pub struct Ouvinte {
    /// The port that the listener reads.
    pub porta: String,
    /// When the listener last put a message on the queue, or when it was
    /// started if it has not yet.
    pub momento_ultima_mensagem: u64,
}

/// What happens to a listener between two decisions.
pub enum Evento {
    /// The listener is about to read.
    Relogio,
    /// The read gave these bytes.
    Lido(Vec<u8>),
    /// The read ran out of time without data.
    TempoEsgotado,
    /// The read failed for another reason.
    Erro,
    /// The listener looked at its termination channel.
    Aviso(Sinal),
}

/// Whether a listener whose last accepted message came at `ultima` has been
/// silent for too long at `agora`.
pub open spec fn silencioso(ultima: u64, agora: u64) -> bool {
    idade(ultima, agora) > TEMPO_MAX_SEM_MSG
}

/// How bytes that were read at `agora` change the queue and the instant
/// from which the silence is counted: the silence is counted anew exactly
/// when the bytes went on the queue.
pub open spec fn leitura_tratada<F: Fn(&str) -> bool>(
    filtro: Option<&F>,
    dados: Seq<u8>,
    fila_antes: Seq<Seq<char>>,
    fila_depois: Seq<Seq<char>>,
    ultima_antes: u64,
    ultima_depois: u64,
    agora: u64,
) -> bool {
    exists|aceita: bool| #[trigger]
        ingestao(filtro, dados, fila_antes, fila_depois, aceita) && ultima_depois == if aceita {
            agora
        } else {
            ultima_antes
        }
}

/// A message that the filter rejects does not count against the silence:
/// when every verdict that the filter can give on the bytes that were read
/// is a rejection, the queue stays as it was and so does the instant from
/// which the silence is counted.
pub proof fn lema_rejeitada_nao_conta<F: Fn(&str) -> bool>(
    filtro: Option<&F>,
    dados: Seq<u8>,
    fila_antes: Seq<Seq<char>>,
    fila_depois: Seq<Seq<char>>,
    ultima_antes: u64,
    ultima_depois: u64,
    agora: u64,
)
    requires
        leitura_tratada(filtro, dados, fila_antes, fila_depois, ultima_antes, ultima_depois, agora),
        !veredito(filtro, decode_utf8(dados), true),
    ensures
        fila_depois == fila_antes,
        ultima_depois == ultima_antes,
{
    let aceita = choose|aceita: bool| #[trigger]
        ingestao(filtro, dados, fila_antes, fila_depois, aceita) && ultima_depois == if aceita {
            agora
        } else {
            ultima_antes
        };
    lema_rejeitada(filtro, dados, fila_antes, fila_depois, aceita);
}

impl Ouvinte {
    /// A listener for a port that was opened at `agora`.
    pub fn new(porta: String, agora: u64) -> (r: Self)
        ensures
            r.porta == porta,
            r.momento_ultima_mensagem == agora,
    {
        Ouvinte { porta, momento_ultima_mensagem: agora }
    }

    /// Tells whether the listener has been silent for too long at `agora`.
    pub fn silencio_excedido(&self, agora: u64) -> (r: bool)
        ensures
            r == silencioso(self.momento_ultima_mensagem, agora),
    {
        decorrido(self.momento_ultima_mensagem, agora) > TEMPO_MAX_SEM_MSG
    }
}

/// One decision of the listener of a serial port, on the event that came at
/// `agora`.
///
/// Before a read, a listener that has been silent for too long ends. Bytes
/// that were read are offered to the queue, and the silence is counted anew
/// only if they were put there. A read that ran out of time changes
/// nothing. Any other failure of the read ends the listener, and so does a
/// request to stop. Only bytes that were read can change the queue or the
/// listener.
pub fn individual_serial_listener<F: Fn(&str) -> bool>(
    ouvinte: &mut Ouvinte,
    queue: &mut Fila,
    evento: &Evento,
    agora: u64,
    filtro: Option<&F>,
) -> (d: Desfecho)
    requires
        total(filtro),
    ensures
        final(ouvinte).porta == old(ouvinte).porta,
        match evento {
            Evento::Relogio => d == if silencioso(old(ouvinte).momento_ultima_mensagem, agora) {
                Desfecho::Silencio
            } else {
                Desfecho::Continua
            },
            Evento::Lido(_) => d == Desfecho::Continua,
            Evento::TempoEsgotado => d == Desfecho::Continua,
            Evento::Erro => d == Desfecho::Falha,
            Evento::Aviso(sinal) => d == if sinal is Nada {
                Desfecho::Continua
            } else {
                Desfecho::Fim
            },
        },
        match evento {
            Evento::Lido(dados) => leitura_tratada(
                filtro,
                dados@,
                old(queue)@,
                final(queue)@,
                old(ouvinte).momento_ultima_mensagem,
                final(ouvinte).momento_ultima_mensagem,
                agora,
            ),
            _ => final(queue)@ == old(queue)@ && final(ouvinte).momento_ultima_mensagem == old(
                ouvinte,
            ).momento_ultima_mensagem,
        },
{
    match evento {
        Evento::Relogio => {
            if ouvinte.silencio_excedido(agora) {
                Desfecho::Silencio
            } else {
                Desfecho::Continua
            }
        },
        Evento::Lido(dados) => {
            let aceita = ingerir(queue, dados.as_slice(), filtro);
            if aceita {
                ouvinte.momento_ultima_mensagem = agora;
            }
            assert(ingestao(filtro, dados@, old(queue)@, queue@, aceita));
            Desfecho::Continua
        },
        Evento::TempoEsgotado => Desfecho::Continua,
        Evento::Erro => Desfecho::Falha,
        Evento::Aviso(sinal) => {
            if encerrar(*sinal) {
                Desfecho::Fim
            } else {
                Desfecho::Continua
            }
        },
    }
}

impl Comm {
    /// Settles an attempt to open a port at `agora`. An open port gets a
    /// listener whose silence is counted from `agora`. A port that could not
    /// be opened gets none: it loses its reservation, if it had one, and is
    /// in quarantine from `agora` on, whether or not it had one.
    pub fn tentar_conexao_serial(
        &mut self,
        porta: String,
        aberta: bool,
        agora: u64,
    ) -> (r: Option<Ouvinte>)
        ensures
            aberta ==> final(self)@ == old(self)@ && r is Some && r->0.porta == porta
                && r->0.momento_ultima_mensagem == agora,
            !aberta ==> final(self)@ == old(self)@.apos_falha_de_abertura(porta@, agora)
                && r is None,
            old(self)@.coerente() && final(self)@.coerente(),
    {
        proof {
            use_type_invariant(&*self);
        }
        if aberta {
            Some(Ouvinte::new(porta, agora))
        } else {
            self.falha_de_abertura(porta.as_str(), agora);
            None
        }
    }
}

} // verus!
