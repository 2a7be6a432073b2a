use psc::runtime::{
    array_alloc_len, builtin_aleatorio, builtin_azar, builtin_concatenar, builtin_fechaactual, builtin_int_to_str,
    builtin_horaactual, builtin_longitud, builtin_mayusculas, builtin_minusculas, builtin_subcadena,
    wait_length, xorshift64_next,
};

#[test]
fn xorshift_steps() {
    assert_eq!(xorshift64_next(1, None), 1082269761);
    assert_eq!(xorshift64_next(0, Some(0)), 1082269761);
    assert_eq!(xorshift64_next(0, None), 13307452440480268);
    assert_eq!(xorshift64_next(12345678, Some(99)), 13307452440480268);
    let mut s = 7u64;
    for _ in 0..1000 {
        s = xorshift64_next(s, None);
        assert_ne!(s, 0);
    }
}

#[test]
fn azar_stays_in_range() {
    assert_eq!(builtin_azar(10, 25), 5);
    assert_eq!(builtin_azar(0, 7), 0);
    assert_eq!(builtin_azar(-3, 7), 0);
    for r in 0..100u64 {
        let v = builtin_azar(6, r * 7919);
        assert!(0 <= v && v < 6);
    }
}

#[test]
fn aleatorio_range() {
    assert_eq!(builtin_aleatorio(1, 6, 10), 5);
    assert_eq!(builtin_aleatorio(5, 1, 3), 5);
    assert_eq!(builtin_aleatorio(-2, 2, 9), 2);
}

#[test]
fn subcadena_positions() {
    assert_eq!(builtin_subcadena("Hola Mundo", 1, 4), "Hola");
    assert_eq!(builtin_subcadena("Hola Mundo", 6, 10), "Mundo");
    assert_eq!(builtin_subcadena("Hola Mundo", 8, 100), "ndo");
    assert_eq!(builtin_subcadena("Hola Mundo", 3, 2), "");
    assert_eq!(builtin_subcadena("Hola Mundo", 0, 2), "Ho");
    assert_eq!(builtin_subcadena("Hola Mundo", -1, 3), "");
    assert_eq!(builtin_subcadena("añoñ", 2, 3), "ño");
}

#[test]
fn clock_codes() {
    assert_eq!(builtin_horaactual(0), 0);
    assert_eq!(builtin_horaactual(3661), 10101);
    assert_eq!(builtin_horaactual(-1), 235959);
    assert_eq!(builtin_fechaactual(0), 19700101);
    assert_eq!(builtin_fechaactual(31536000), 19710101);
    assert_eq!(builtin_fechaactual(1709164800), 20240229);
    assert_eq!(builtin_fechaactual(978266096), 20001231);
    assert_eq!(builtin_horaactual(978266096), 123456);
    assert_eq!(builtin_fechaactual(-1), 19700100);
}

#[test]
fn sizes_of_allocations_and_waits() {
    assert_eq!(array_alloc_len(0), 1);
    assert_eq!(array_alloc_len(-4), 1);
    assert_eq!(array_alloc_len(5), 5);
    assert_eq!(wait_length(-3), 0);
    assert_eq!(wait_length(250), 250);
}

#[test]
fn dates_from_1970_are_calendar_dates() {
    let mut secs: i64 = 0;
    while secs < 4_000_000_000 {
        let c = builtin_fechaactual(secs);
        let (y, m, d) = (c / 10000, (c / 100) % 100, c % 100);
        assert!(y >= 1970);
        assert!((1..=12).contains(&m));
        let leap = y % 4 == 0 && (y % 100 != 0 || y % 400 == 0);
        let len = match m {
            2 => if leap { 29 } else { 28 },
            4 | 6 | 9 | 11 => 30,
            _ => 31,
        };
        assert!(1 <= d && d <= len);
        secs += 86400 * 13 + 7;
    }
}

#[test]
fn text_functions() {
    assert_eq!(builtin_longitud("año"), 3);
    assert_eq!(builtin_longitud(""), 0);
    assert_eq!(builtin_longitud("Hola Mundo"), 10);
    assert_eq!(builtin_mayusculas("Año nuevo"), "AÑO NUEVO");
    assert_eq!(builtin_minusculas("ÁRBOL Azul"), "árbol azul");
    assert_eq!(builtin_concatenar("Hola, ", "mundo"), "Hola, mundo");
    assert_eq!(builtin_concatenar("", "x"), "x");
}

#[test]
fn integers_as_text() {
    assert_eq!(builtin_int_to_str(0), "0");
    assert_eq!(builtin_int_to_str(42), "42");
    assert_eq!(builtin_int_to_str(-12), "-12");
    assert_eq!(builtin_int_to_str(i64::MIN), "-9223372036854775808");
    assert_eq!(builtin_int_to_str(i64::MAX), "9223372036854775807");
}
