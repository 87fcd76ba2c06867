use papete::tempo::decorrido;
use papete::texto::{aparar, caracteres, decimal, e_digito, igual, separar};

#[test]
fn caracteres_preserva_ordem_e_unicode() {
    assert_eq!(caracteres("aé\t1"), vec!['a', 'é', '\t', '1']);
    assert_eq!(caracteres(""), Vec::<char>::new());
}

#[test]
fn igual_compara_conteudo() {
    assert!(igual("papE", "papE"));
    assert!(!igual("papE", "papD"));
    assert!(!igual("papE", "papE "));
    assert!(igual("", ""));
}

#[test]
fn aparar_remove_espacos_das_pontas() {
    assert_eq!(aparar("  papE\t1\t2\r\n"), "papE\t1\t2");
    assert_eq!(aparar("\u{a0}x y\u{2003}"), "x y");
    assert_eq!(aparar("sem espaco"), "sem espaco");
}

#[test]
fn aparar_texto_so_de_espacos_fica_vazio() {
    assert_eq!(aparar(" \t\n "), "");
    assert_eq!(aparar(""), "");
}

#[test]
fn aparar_mantem_nulos_no_fim() {
    assert_eq!(aparar("papE\t1\0\0"), "papE\t1\0\0");
}

#[test]
fn separar_divide_em_cada_separador() {
    assert_eq!(separar("papE\t1.5\t-2.25\tjunk", '\t'), vec!["papE", "1.5", "-2.25", "junk"]);
}

#[test]
fn separar_mantem_campos_vazios() {
    assert_eq!(separar("", '\t'), vec![""]);
    assert_eq!(separar("\t", '\t'), vec!["", ""]);
    assert_eq!(separar("a\t\tb\t", '\t'), vec!["a", "", "b", ""]);
    assert_eq!(separar("sem", '\t'), vec!["sem"]);
}

#[test]
fn separar_concorda_com_split_da_biblioteca_padrao() {
    for s in ["a\tb", "\ta", "a\t", "é\tü\t\t", "x"] {
        let esperado: Vec<String> = s.split('\t').map(|c| c.to_string()).collect();
        assert_eq!(separar(s, '\t'), esperado);
    }
}

#[test]
fn e_digito_so_aceita_ascii() {
    assert!(e_digito('0'));
    assert!(e_digito('9'));
    assert!(!e_digito('/'));
    assert!(!e_digito(':'));
    assert!(!e_digito('٣'));
    assert!(!e_digito('a'));
}

#[test]
fn decimal_aceita_numerais_simples() {
    for s in ["0", "7", "-1", "1.5", "-2.25", "007", "10.000", "-0.0"] {
        assert!(decimal(s), "{}", s);
    }
}

#[test]
fn decimal_recusa_o_resto() {
    for s in ["", "-", ".", "1.", ".5", "-.5", "1.5.2", "+1", "1e5", "1 ", " 1", "--1", "1٣", "1.٣", "abc"] {
        assert!(!decimal(s), "{:?}", s);
    }
}

#[test]
fn decimal_sempre_converte_em_numero() {
    for s in ["0", "-1", "1.5", "-2.25", "123456789012345678901234567890.5"] {
        assert!(decimal(s));
        assert!(s.parse::<f32>().is_ok());
    }
}

#[test]
fn decorrido_e_a_diferenca_dos_instantes() {
    assert_eq!(decorrido(100, 1100), 1000);
    assert_eq!(decorrido(5, 5), 0);
    assert_eq!(decorrido(0, u64::MAX), u64::MAX);
}

#[test]
fn decorrido_com_relogio_atrasado_e_zero() {
    assert_eq!(decorrido(1100, 100), 0);
    assert_eq!(decorrido(u64::MAX, 0), 0);
}
