use papete::sensor::{
    aprovar, filtro, interpretar, permitido, valor, Sensores, PADRAO_MENSAGEM, PADRAO_NUMERO,
    TIMEOUT,
};
use papete::texto::Busca;

fn textos(v: &[&str]) -> Vec<String> {
    v.iter().map(|s| s.to_string()).collect()
}

fn valores(s: &Sensores, agora: u64) -> Vec<Vec<String>> {
    let mut buffer: Vec<Vec<String>> = Vec::new();
    s.obter_valores(agora, &mut buffer);
    buffer
}

fn como_f32(linhas: &[Vec<String>]) -> Vec<Vec<f32>> {
    linhas.iter().map(|l| l.iter().map(|v| v.parse::<f32>().unwrap()).collect()).collect()
}

#[test]
fn constantes_do_registro() {
    assert_eq!(TIMEOUT, 1000);
    assert_eq!(PADRAO_MENSAGEM, r"^[a-z][^\t]*\t.{3,}");
    assert_eq!(PADRAO_NUMERO, r"^-?(0|[1-9]\d*)(\.\d+)?");
}

#[test]
fn aprovar_exige_padrao_valido_e_casamento() {
    assert!(aprovar(Some(true)));
    assert!(!aprovar(Some(false)));
    assert!(!aprovar(None));
}

#[test]
fn filtro_aprova_mensagens_bem_formadas() {
    assert!(filtro("papE\t1.5\t-2.25"));
    assert!(filtro("papE\t123"));
    assert!(filtro("foo\t1\t2"));
    assert!(filtro("x\tabc"));
    assert!(filtro("papE\t1\t2\nresto"));
}

#[test]
fn filtro_rejeita_mensagens_mal_formadas() {
    assert!(!filtro(""));
    assert!(!filtro("papE"));
    assert!(!filtro("papE\t12"));
    assert!(!filtro("PapE\t1.5\t2"));
    assert!(!filtro("\t1.5\t2"));
    assert!(!filtro("1\t1.5\t2"));
    assert!(!filtro(" papE\t1.5\t2"));
    assert!(!filtro("papE\t1\n2"));
}

#[test]
fn permitido_conhece_quatro_dispositivos() {
    for d in ["papE", "papD", "luvaE", "luvaD"] {
        assert!(permitido(d));
    }
    for d in ["", "foo", "pape", "papE ", "luva", "PAPE"] {
        assert!(!permitido(d));
    }
}

#[test]
fn valor_guarda_so_numerais() {
    assert_eq!(valor(Busca::Trecho("1.5".to_string())), Some("1.5".to_string()));
    assert_eq!(valor(Busca::Trecho("-2".to_string())), Some("-2".to_string()));
    assert_eq!(valor(Busca::Trecho("1٣".to_string())), None);
    assert_eq!(valor(Busca::Trecho("".to_string())), None);
    assert_eq!(valor(Busca::Nada), None);
    assert_eq!(valor(Busca::PadraoInvalido), None);
}

#[test]
fn interpretar_extrai_dispositivo_e_valores() {
    assert_eq!(
        interpretar("papE\t1.5\t-2.25\tjunk"),
        Some(("papE".to_string(), textos(&["1.5", "-2.25"])))
    );
}

#[test]
fn interpretar_toma_o_prefixo_numerico_de_cada_campo() {
    assert_eq!(
        interpretar("luvaD\t12abc\t-0.50x\t007\t3.\t1e9\t-\t.5\t\t+4"),
        Some(("luvaD".to_string(), textos(&["12", "-0.50", "0", "3", "1"])))
    );
}

#[test]
fn interpretar_descarta_digitos_que_nao_sao_ascii() {
    assert_eq!(interpretar("papD\t1٣\t2"), Some(("papD".to_string(), textos(&["2"]))));
}

#[test]
fn interpretar_apara_a_mensagem() {
    assert_eq!(interpretar("  luvaE\t4\t5\r\n"), Some(("luvaE".to_string(), textos(&["4", "5"]))));
    assert_eq!(interpretar("papE\n"), Some(("papE".to_string(), textos(&[]))));
}

#[test]
fn interpretar_ignora_nulos_depois_do_ultimo_valor() {
    assert_eq!(interpretar("papE\t1\t2\0\0\0"), Some(("papE".to_string(), textos(&["1", "2"]))));
}

#[test]
fn interpretar_recusa_dispositivo_desconhecido() {
    assert_eq!(interpretar("foo\t1\t2"), None);
    assert_eq!(interpretar(""), None);
    assert_eq!(interpretar("x\tpapE\t1"), None);
    assert_eq!(interpretar("papE 1 2"), None);
}

#[test]
fn registro_novo_esta_vazio() {
    let s = Sensores::new();
    assert!(s.obter_sensores_ativos(0).is_empty());
    assert!(valores(&s, 0).is_empty());
}

#[test]
fn mensagem_bem_formada_e_registrada() {
    let mut s = Sensores::new();
    assert!(s.registrar("papE\t1.5\t-2.25\tjunk", 100));
    assert_eq!(s.obter_sensores_ativos(100), textos(&["papE"]));
    let v = valores(&s, 100);
    assert_eq!(v, vec![textos(&["1.5", "-2.25"])]);
    assert_eq!(como_f32(&v), vec![vec![1.5f32, -2.25f32]]);
}

#[test]
fn dispositivo_desconhecido_nao_altera_o_registro() {
    let mut s = Sensores::new();
    assert!(s.registrar("papD\t3\t4", 10));
    assert!(!s.registrar("foo\t1\t2", 20));
    assert_eq!(s.obter_sensores_ativos(20), textos(&["papD"]));
    assert_eq!(valores(&s, 20), vec![textos(&["3", "4"])]);
    let mut vazio = Sensores::new();
    assert!(!vazio.registrar("foo\t1\t2", 20));
    assert!(vazio.obter_sensores_ativos(20).is_empty());
}

#[test]
fn leitura_nova_substitui_a_anterior_por_inteiro() {
    let mut s = Sensores::new();
    s.registrar("papE\t1\t2\t3", 0);
    s.registrar("papD\t9", 10);
    s.registrar("papE\t7", 20);
    assert_eq!(s.obter_sensores_ativos(20), textos(&["papE", "papD"]));
    assert_eq!(valores(&s, 20), vec![textos(&["7"]), textos(&["9"])]);
}

#[test]
fn leitura_some_ao_completar_um_segundo() {
    let mut s = Sensores::new();
    s.registrar("papE\t1\t2", 5000);
    assert_eq!(s.obter_sensores_ativos(5000), textos(&["papE"]));
    assert_eq!(s.obter_sensores_ativos(5999), textos(&["papE"]));
    assert!(s.obter_sensores_ativos(6000).is_empty());
    assert!(s.obter_sensores_ativos(6100).is_empty());
    assert!(valores(&s, 6100).is_empty());
}

#[test]
fn relogio_atrasado_nao_envelhece_leituras() {
    let mut s = Sensores::new();
    s.registrar("papE\t1\t2", 5000);
    assert_eq!(s.obter_sensores_ativos(10), textos(&["papE"]));
    s.expurgar(10);
    assert_eq!(s.obter_sensores_ativos(5000), textos(&["papE"]));
}

#[test]
fn expurgar_remove_so_as_leituras_velhas() {
    let mut s = Sensores::new();
    s.registrar("papE\t1", 0);
    s.registrar("papD\t2", 400);
    s.registrar("luvaE\t3", 800);
    s.expurgar(1000);
    assert_eq!(s.obter_sensores_ativos(1000), textos(&["papD", "luvaE"]));
    s.expurgar(1400);
    assert_eq!(s.obter_sensores_ativos(1400), textos(&["luvaE"]));
    // What was dropped does not come back when the clock steps back.
    assert_eq!(s.obter_sensores_ativos(0), textos(&["luvaE"]));
}

#[test]
fn mensagem_recusada_tambem_expurga() {
    let mut s = Sensores::new();
    s.registrar("papE\t1", 0);
    assert!(!s.registrar("foo\t1\t2", 1000));
    assert!(s.obter_sensores_ativos(0).is_empty());
}

#[test]
fn turno_sem_mensagem_so_expurga() {
    let mut s = Sensores::new();
    s.registrar("papE\t1", 0);
    assert!(!s.listener(None, 999));
    assert_eq!(s.obter_sensores_ativos(999), textos(&["papE"]));
    assert!(!s.listener(None, 1000));
    assert!(s.obter_sensores_ativos(0).is_empty());
}

#[test]
fn turno_com_mensagem_registra() {
    let mut s = Sensores::new();
    assert!(s.listener(Some("luvaD\t0.25".to_string()), 50));
    assert!(!s.listener(Some("nada\t0.25".to_string()), 60));
    assert_eq!(s.obter_sensores_ativos(60), textos(&["luvaD"]));
    assert_eq!(valores(&s, 60), vec![textos(&["0.25"])]);
}

#[test]
fn reenvio_deixa_uma_so_leitura_com_instante_novo() {
    let mut s = Sensores::new();
    assert!(s.registrar("papE\t1.5\t2", 100));
    assert!(s.registrar("papE\t1.5\t2", 600));
    assert_eq!(s.obter_sensores_ativos(600), textos(&["papE"]));
    assert_eq!(valores(&s, 600), vec![textos(&["1.5", "2"])]);
    assert_eq!(s.leituras().len(), 1);
    assert_eq!(s.leituras()[0].device, "papE");
    assert_eq!(s.leituras()[0].values, textos(&["1.5", "2"]));
    assert_eq!(s.leituras()[0].time, 600);
    // Fresh until a second after the second arrival, not the first.
    assert_eq!(s.obter_sensores_ativos(1599), textos(&["papE"]));
    assert!(s.obter_sensores_ativos(1600).is_empty());
}

#[test]
fn valores_sao_de_quem_esta_ativo_e_na_mesma_ordem() {
    let mut s = Sensores::new();
    s.registrar("papE\t1\t2", 0);
    s.registrar("papD\t3\t4", 500);
    assert_eq!(s.obter_sensores_ativos(900), textos(&["papE", "papD"]));
    assert_eq!(valores(&s, 900), vec![textos(&["1", "2"]), textos(&["3", "4"])]);
    // papE is stale at 1200 though nothing has purged it yet.
    assert_eq!(s.obter_sensores_ativos(1200), textos(&["papD"]));
    assert_eq!(valores(&s, 1200), vec![textos(&["3", "4"])]);
}

#[test]
fn obter_valores_reaproveita_e_corta_o_buffer() {
    let mut s = Sensores::new();
    s.registrar("papE\t1\t2", 0);
    s.registrar("papD\t3", 0);
    let mut buffer = vec![textos(&["a", "b", "c"]), textos(&[]), textos(&["z"])];
    s.obter_valores(0, &mut buffer);
    assert_eq!(buffer, vec![textos(&["1", "2"]), textos(&["3"])]);
    s.obter_valores(5000, &mut buffer);
    assert!(buffer.is_empty());
    s.obter_valores(0, &mut buffer);
    assert_eq!(buffer, vec![textos(&["1", "2"]), textos(&["3"])]);
}

#[test]
fn mensagem_sem_valores_registra_lista_vazia() {
    let mut s = Sensores::new();
    assert!(s.registrar("luvaE\tjunk\t\t-", 0));
    assert_eq!(valores(&s, 0), vec![textos(&[])]);
}
