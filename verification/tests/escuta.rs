use papete::comm::{Comm, Desfecho};
use papete::escuta::{
    add_to_queue, encerrar, escutador_wifi, individual_serial_listener, ingerir, Evento, Ouvinte,
    Recebido, Sinal,
};
use papete::fila::Fila;
use papete::sensor::{filtro, Sensores};

type Filtro = fn(&str) -> bool;

const SEM_FILTRO: Option<&Filtro> = None;

fn esvaziar(f: &mut Fila) -> Vec<String> {
    let mut v = Vec::new();
    while let Some(m) = f.desenfileirar() {
        v.push(m);
    }
    v
}

#[test]
fn encerrar_so_continua_sem_sinal() {
    assert!(encerrar(Sinal::Fim));
    assert!(encerrar(Sinal::Desligado));
    assert!(!encerrar(Sinal::Nada));
}

#[test]
fn sem_filtro_toda_mensagem_entra() {
    let mut f = Fila::new();
    assert!(add_to_queue(&mut f, "qualquer coisa", SEM_FILTRO));
    assert!(add_to_queue(&mut f, "", SEM_FILTRO));
    assert_eq!(esvaziar(&mut f), vec!["qualquer coisa".to_string(), "".to_string()]);
}

#[test]
fn filtro_decide_o_que_entra_na_fila() {
    let mut f = Fila::new();
    let so_pap = |m: &str| m.starts_with("pap");
    assert!(add_to_queue(&mut f, "papE\t1\t2", Some(&so_pap)));
    assert!(!add_to_queue(&mut f, "luvaE\t1\t2", Some(&so_pap)));
    assert!(add_to_queue(&mut f, "papD\t3\t4", Some(&so_pap)));
    assert_eq!(esvaziar(&mut f), vec!["papE\t1\t2".to_string(), "papD\t3\t4".to_string()]);
}

#[test]
fn filtro_de_formato_na_fila() {
    let mut f = Fila::new();
    assert!(add_to_queue(&mut f, "papE\t1.5\t2", Some(&filtro)));
    assert!(!add_to_queue(&mut f, "papE", Some(&filtro)));
    assert_eq!(esvaziar(&mut f), vec!["papE\t1.5\t2".to_string()]);
}

#[test]
fn ingerir_decodifica_texto() {
    let mut f = Fila::new();
    assert!(ingerir(&mut f, "papE\t1\t2".as_bytes(), SEM_FILTRO));
    assert!(ingerir(&mut f, "çã\t€".as_bytes(), SEM_FILTRO));
    assert_eq!(esvaziar(&mut f), vec!["papE\t1\t2".to_string(), "çã\t€".to_string()]);
}

#[test]
fn ingerir_descarta_bytes_que_nao_sao_texto() {
    let mut f = Fila::new();
    assert!(!ingerir(&mut f, &[0x70, 0x61, 0xff, 0x09], SEM_FILTRO));
    assert!(!ingerir(&mut f, &[0xc3], SEM_FILTRO));
    assert!(!ingerir(&mut f, &[0xed, 0xa0, 0x80], SEM_FILTRO));
    assert!(esvaziar(&mut f).is_empty());
}

#[test]
fn escutador_wifi_enfileira_datagramas() {
    let mut f = Fila::new();
    let d = Recebido::Datagrama(b"papD\t1\t2".to_vec());
    assert!(escutador_wifi(&mut f, &d, Some(&filtro)));
    assert!(!escutador_wifi(&mut f, &Recebido::Datagrama(b"ruido".to_vec()), Some(&filtro)));
    assert!(!escutador_wifi(&mut f, &Recebido::Datagrama(vec![0xff, 0xfe]), SEM_FILTRO));
    assert!(!escutador_wifi(&mut f, &Recebido::Erro, SEM_FILTRO));
    assert_eq!(esvaziar(&mut f), vec!["papD\t1\t2".to_string()]);
}

#[test]
fn escutador_wifi_aceita_buffer_com_nulos_no_fim() {
    let mut f = Fila::new();
    let mut buf = vec![0u8; 1000];
    buf[..8].copy_from_slice(b"papE\t7\t8");
    assert!(escutador_wifi(&mut f, &Recebido::Datagrama(buf), Some(&filtro)));
    let msg = f.desenfileirar().unwrap();
    let mut s = Sensores::new();
    assert!(s.registrar(&msg, 0));
    let mut valores = Vec::new();
    s.obter_valores(0, &mut valores);
    assert_eq!(valores, vec![vec!["7".to_string(), "8".to_string()]]);
}

#[test]
fn ouvinte_conta_o_silencio_desde_a_abertura() {
    let o = Ouvinte::new("COM3".to_string(), 1_000);
    assert_eq!(o.porta, "COM3");
    assert_eq!(o.momento_ultima_mensagem, 1_000);
    assert!(!o.silencio_excedido(1_000));
    assert!(!o.silencio_excedido(4_000));
    assert!(o.silencio_excedido(4_001));
    assert!(!o.silencio_excedido(0));
}

#[test]
fn ouvinte_silencioso_por_mais_de_tres_segundos_termina() {
    let mut o = Ouvinte::new("COM3".to_string(), 0);
    let mut f = Fila::new();
    assert_eq!(
        individual_serial_listener(&mut o, &mut f, &Evento::Relogio, 3_000, SEM_FILTRO),
        Desfecho::Continua
    );
    assert_eq!(
        individual_serial_listener(&mut o, &mut f, &Evento::Relogio, 3_001, SEM_FILTRO),
        Desfecho::Silencio
    );
    assert_eq!(o.momento_ultima_mensagem, 0);
    assert!(esvaziar(&mut f).is_empty());
}

#[test]
fn mensagem_aceita_reinicia_o_silencio() {
    let mut o = Ouvinte::new("COM3".to_string(), 0);
    let mut f = Fila::new();
    let lido = Evento::Lido(b"papE\t1\t2".to_vec());
    assert_eq!(
        individual_serial_listener(&mut o, &mut f, &lido, 2_500, Some(&filtro)),
        Desfecho::Continua
    );
    assert_eq!(o.momento_ultima_mensagem, 2_500);
    assert_eq!(
        individual_serial_listener(&mut o, &mut f, &Evento::Relogio, 5_500, Some(&filtro)),
        Desfecho::Continua
    );
    assert_eq!(
        individual_serial_listener(&mut o, &mut f, &Evento::Relogio, 5_501, Some(&filtro)),
        Desfecho::Silencio
    );
    assert_eq!(esvaziar(&mut f), vec!["papE\t1\t2".to_string()]);
}

#[test]
fn mensagem_rejeitada_nao_reinicia_o_silencio_nem_chega_ao_registro() {
    let mut o = Ouvinte::new("COM3".to_string(), 0);
    let mut f = Fila::new();
    let mut s = Sensores::new();
    let lido = Evento::Lido(b"papE".to_vec());
    assert_eq!(
        individual_serial_listener(&mut o, &mut f, &lido, 2_500, Some(&filtro)),
        Desfecho::Continua
    );
    assert_eq!(o.momento_ultima_mensagem, 0);
    assert!(!s.listener(f.desenfileirar(), 2_500));
    assert!(s.obter_sensores_ativos(2_500).is_empty());
    assert_eq!(
        individual_serial_listener(&mut o, &mut f, &Evento::Relogio, 3_001, Some(&filtro)),
        Desfecho::Silencio
    );
}

#[test]
fn bytes_invalidos_nao_reiniciam_o_silencio() {
    let mut o = Ouvinte::new("COM3".to_string(), 0);
    let mut f = Fila::new();
    let lido = Evento::Lido(vec![0x80, 0x09, 0x31]);
    assert_eq!(
        individual_serial_listener(&mut o, &mut f, &lido, 2_500, SEM_FILTRO),
        Desfecho::Continua
    );
    assert_eq!(o.momento_ultima_mensagem, 0);
    assert!(esvaziar(&mut f).is_empty());
}

#[test]
fn leitura_sem_dados_no_prazo_nao_e_falha() {
    let mut o = Ouvinte::new("COM3".to_string(), 0);
    let mut f = Fila::new();
    assert_eq!(
        individual_serial_listener(&mut o, &mut f, &Evento::TempoEsgotado, 9_999, SEM_FILTRO),
        Desfecho::Continua
    );
    assert_eq!(o.momento_ultima_mensagem, 0);
}

#[test]
fn falha_de_leitura_e_pedido_de_fim_terminam_o_ouvinte() {
    let mut o = Ouvinte::new("COM3".to_string(), 0);
    let mut f = Fila::new();
    assert_eq!(
        individual_serial_listener(&mut o, &mut f, &Evento::Erro, 10, SEM_FILTRO),
        Desfecho::Falha
    );
    for (sinal, esperado) in [
        (Sinal::Fim, Desfecho::Fim),
        (Sinal::Desligado, Desfecho::Fim),
        (Sinal::Nada, Desfecho::Continua),
    ] {
        assert_eq!(
            individual_serial_listener(&mut o, &mut f, &Evento::Aviso(sinal), 10, SEM_FILTRO),
            esperado
        );
    }
    assert_eq!(o.porta, "COM3");
    assert!(esvaziar(&mut f).is_empty());
}

#[test]
fn ciclo_de_vida_de_uma_conexao_silenciosa() {
    let mut c = Comm::new();
    let mut f = Fila::new();
    let novas = c.buscador_portas(&vec!["COM3".to_string()], 0);
    assert_eq!(novas, vec!["COM3".to_string()]);
    let mut o = c.tentar_conexao_serial("COM3".to_string(), true, 10).unwrap();
    let mut agora = 10;
    let desfecho = loop {
        let d = individual_serial_listener(&mut o, &mut f, &Evento::Relogio, agora, Some(&filtro));
        if d != Desfecho::Continua {
            break d;
        }
        let d = individual_serial_listener(
            &mut o,
            &mut f,
            &Evento::Lido(b"lixo".to_vec()),
            agora,
            Some(&filtro),
        );
        assert_eq!(d, Desfecho::Continua);
        agora += 60;
    };
    assert_eq!(desfecho, Desfecho::Silencio);
    assert!(agora > 3_010 && agora <= 3_070);
    c.encerrar_ouvinte(&o.porta, desfecho, agora);
    assert!(!c.conectada("COM3"));
    assert!(c.na_lista_negra("COM3"));
    assert!(c.buscador_portas(&vec!["COM3".to_string()], agora + 9_999).is_empty());
    assert_eq!(c.buscador_portas(&vec!["COM3".to_string()], agora + 10_000), vec!["COM3".to_string()]);
}

#[test]
fn duas_fontes_alternadas_de_ponta_a_ponta() {
    let mut f = Fila::new();
    let mut s = Sensores::new();
    let mut serial = Ouvinte::new("COM3".to_string(), 0);
    let mut agora = 0u64;
    for i in 0..6u64 {
        agora = i * 100;
        if i % 2 == 0 {
            let lido = Evento::Lido(format!("papE\t{}.5\t-{}", i, i).into_bytes());
            individual_serial_listener(&mut serial, &mut f, &lido, agora, Some(&filtro));
        } else {
            let d = Recebido::Datagrama(format!("papD\t{}\t{}.25", i, i).into_bytes());
            assert!(escutador_wifi(&mut f, &d, Some(&filtro)));
        }
        assert!(s.listener(f.desenfileirar(), agora));
    }
    assert_eq!(serial.momento_ultima_mensagem, 400);
    let mut ativos = s.obter_sensores_ativos(agora);
    assert_eq!(ativos, s.obter_sensores_ativos(agora));
    ativos.sort();
    assert_eq!(ativos, vec!["papD".to_string(), "papE".to_string()]);
    let mut valores = Vec::new();
    s.obter_valores(agora, &mut valores);
    assert_eq!(
        valores,
        vec![
            vec!["4.5".to_string(), "-4".to_string()],
            vec!["5".to_string(), "5.25".to_string()]
        ]
    );
    // 1.2 s later, with no further input.
    assert!(!s.listener(f.desenfileirar(), agora + 1_200));
    assert!(s.obter_sensores_ativos(agora + 1_200).is_empty());
    s.obter_valores(agora + 1_200, &mut valores);
    assert!(valores.is_empty());
}
