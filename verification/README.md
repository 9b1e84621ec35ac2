# congal

Lóxica de Congal (contratos públicos de contratosdegalicia.gal) escrita en Verus:
cada función de `src/` leva o seu contrato (`requires` / `ensures`) e Verus próbao.

- `src/` — a biblioteca verificada: modelo de datos, normalización de texto, importes e
  datas en formato galego, construción das consultas SQL locais, plan de importación
  incremental, extracción das páxinas HTML (detalle, resolucións, UTE, opcións, datoscif),
  cálculo das tramas (compoñentes conexas de empresas unidas por UTE) e as decisións da
  vista e do fío de traballo.
- `tests/` — probas sobre valores concretos.
- `app/` — o programa de liña de ordes arredor da biblioteca: rede (`reqwest`), SQLite
  (`rusqlite`), exportación `.ods` e o bucle do fío de traballo.

O emparellamento de adxudicatarios con fichas de datoscif.es (ordes `Enrich` e
`ResolveMatch` do fío de traballo) non está dispoñible: o programa responde cun
erro. O código dese proceso dependía de funcións e táboas que non existen no
resto do proxecto (procura de suxestións, variantes de busca, revisión de
candidatos, táboas de entidades de datoscif), así que só se conservan, verificadas
en `src/enrich.rs`, as decisións que se poden expresar por si mesmas.
